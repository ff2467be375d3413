use nalgebra_glm as glm;
use scene_render::graph::{DrawCall, GraphError, Node, NodeType, Pass, ProbePass, ReflectionKind, RenderError, SceneGraph, ScreenPass};
use scene_render::texture::{CubemapTexture, FrameBufferTexture, ImageTexture, PostProcessingTexture, TargetError, FRAMEBUFFER_COMPLETE};

#[derive(Clone, Copy, Debug)]
struct Local {
    position: glm::Vec3,
    reference_point: glm::Vec3,
    rotation: glm::Vec3,
    scale: glm::Vec3,
    emission_color: glm::Vec3,
}

fn local() -> Local {
    Local {
        position: glm::zero(),
        reference_point: glm::zero(),
        rotation: glm::zero(),
        scale: glm::vec3(1., 1., 1.),
        emission_color: glm::zero(),
    }
}

fn local_matrix(t: &Local) -> glm::Mat4 {
    let mut mat: glm::Mat4 = glm::scaling(&t.scale);
    mat = glm::translation(&-t.reference_point) * mat;
    mat = glm::rotation(t.rotation.y, &glm::vec3(0.0, 1.0, 0.0)) * mat;
    mat = glm::rotation(t.rotation.x, &glm::vec3(1.0, 0.0, 0.0)) * mat;
    mat = glm::rotation(t.rotation.z, &glm::vec3(0.0, 0.0, 1.0)) * mat;
    mat = glm::translation(&t.reference_point) * mat;
    glm::translation(&t.position) * mat
}

fn compose_matrix(parent: &glm::Mat4, t: &Local) -> glm::Mat4 {
    parent * local_matrix(t)
}

fn compose_rotation(parent: &glm::Vec3, t: &Local) -> glm::Vec3 {
    parent + t.rotation
}

fn translation_of(m: &glm::Mat4) -> glm::Vec3 {
    glm::vec3(m[(0, 3)], m[(1, 3)], m[(2, 3)])
}

fn target(framebuffer: u32, texture: u32) -> FrameBufferTexture {
    FrameBufferTexture::new(framebuffer, texture, 64, 32, FRAMEBUFFER_COMPLETE).unwrap()
}

fn mesh_node(kind: NodeType, vao: u32) -> Node<Local> {
    let mut n = Node::new(kind, local());
    n.bindings.vao = Some(vao);
    n
}

#[test]
fn pure_translation_round_trips() {
    let mut g = SceneGraph::new(local());
    let mut l = local();
    l.position = glm::vec3(1.5, -2.0, 4.0);
    let a = g.add_child(0, Node::new(NodeType::Geometry, l)).unwrap();
    let (worlds, _) = g.update(&glm::identity(), &compose_matrix, 0);
    assert_eq!(translation_of(&worlds[a]), glm::vec3(1.5, -2.0, 4.0));
    assert_eq!(worlds[a], glm::translation(&glm::vec3(1.5, -2.0, 4.0)));
}

#[test]
fn pure_translation_with_pivot_round_trips() {
    let mut g = SceneGraph::new(local());
    let mut l = local();
    l.position = glm::vec3(3.0, 0.0, -1.0);
    l.reference_point = glm::vec3(7.0, 7.0, 7.0);
    let a = g.add_child(0, Node::new(NodeType::Geometry, l)).unwrap();
    let (worlds, _) = g.update(&glm::identity(), &compose_matrix, 0);
    assert_eq!(translation_of(&worlds[a]), glm::vec3(3.0, 0.0, -1.0));
}

#[test]
fn child_world_is_parent_world_times_local() {
    let mut g = SceneGraph::new(local());
    let mut p = local();
    p.position = glm::vec3(0.0, 2.0, 0.0);
    p.rotation = glm::vec3(0.0, 0.5, 0.0);
    p.scale = glm::vec3(2.0, 2.0, 2.0);
    let parent = g.add_child(0, Node::new(NodeType::Root, p)).unwrap();
    let mut c = local();
    c.position = glm::vec3(1.0, 0.0, 0.0);
    c.rotation = glm::vec3(0.25, 0.0, 0.0);
    c.reference_point = glm::vec3(0.0, 1.0, 0.0);
    let child = g.add_child(parent, Node::new(NodeType::Geometry, c)).unwrap();
    let (worlds, _) = g.update(&glm::identity(), &compose_matrix, 0);
    assert_eq!(worlds[parent], local_matrix(&p));
    assert_eq!(worlds[child], worlds[parent] * local_matrix(&c));
}

#[test]
fn total_rotation_sums_down_a_chain() {
    let mut g = SceneGraph::new(local());
    let mut ids = vec![0usize];
    for r in [glm::vec3(0.5, 0.0, 1.0), glm::vec3(0.25, 1.0, 0.0), glm::vec3(0.125, 2.0, -1.0)] {
        let mut l = local();
        l.rotation = r;
        let parent = *ids.last().unwrap();
        ids.push(g.add_child(parent, Node::new(NodeType::Geometry, l)).unwrap());
    }
    let (rotations, _) = g.update(&glm::zero(), &compose_rotation, 0);
    assert_eq!(rotations[ids[3]], glm::vec3(0.875, 3.0, 0.0));
    assert_eq!(rotations[ids[1]], glm::vec3(0.5, 0.0, 1.0));
}

#[test]
fn subtree_update_leaves_other_nodes() {
    let mut g = SceneGraph::new(local());
    let mut l = local();
    l.rotation = glm::vec3(1.0, 0.0, 0.0);
    let a = g.add_child(0, Node::new(NodeType::Geometry, l)).unwrap();
    let b = g.add_child(0, Node::new(NodeType::Geometry, l)).unwrap();
    let c = g.add_child(a, Node::new(NodeType::Geometry, l)).unwrap();
    let mut worlds = vec![glm::vec3(9.0, 9.0, 9.0); g.len()];
    g.update_transformations(a, &glm::vec3(0.0, 1.0, 0.0), &compose_rotation, &mut worlds);
    assert_eq!(worlds[a], glm::vec3(1.0, 1.0, 0.0));
    assert_eq!(worlds[c], glm::vec3(2.0, 1.0, 0.0));
    assert_eq!(worlds[b], glm::vec3(9.0, 9.0, 9.0));
    assert_eq!(worlds[0], glm::vec3(9.0, 9.0, 9.0));
}

#[test]
fn light_and_geometry_scene() {
    let mut g = SceneGraph::new(local());
    let mut light = local();
    light.position = glm::vec3(0.0, 6.0, 6.0);
    light.emission_color = glm::vec3(0.4, 0.4, 0.4);
    let l = g.add_child(0, Node::new(NodeType::Light, light)).unwrap();
    let mut geometry = local();
    geometry.position = glm::vec3(2.0, 0.0, 0.0);
    geometry.scale = glm::vec3(1.0, 1.0, 1.0);
    let m = g.add_child(0, Node::new(NodeType::Geometry, geometry)).unwrap();
    let (worlds, lights) = g.update(&glm::identity(), &compose_matrix, 4);
    assert_eq!(lights, vec![l]);
    let lit = &g.get_node(lights[0]).local;
    assert_eq!(lit.position, glm::vec3(0.0, 6.0, 6.0));
    assert_eq!(lit.emission_color, glm::vec3(0.4, 0.4, 0.4));
    assert_eq!(translation_of(&worlds[m]), glm::vec3(2.0, 0.0, 0.0));
}

#[test]
fn lights_are_capped_by_slots() {
    let mut g = SceneGraph::new(0u8);
    let a = g.add_child(0, Node::new(NodeType::Light, 1u8)).unwrap();
    let _ = g.add_child(0, Node::new(NodeType::Geometry, 2u8)).unwrap();
    let b = g.add_child(a, Node::new(NodeType::Light, 3u8)).unwrap();
    let c = g.add_child(0, Node::new(NodeType::Light, 4u8)).unwrap();
    assert_eq!(g.light_sources(), &vec![a, b, c]);
    let (_, two) = g.update(&0u8, &|w: &u8, _t: &u8| *w, 2);
    assert_eq!(two, vec![a, b]);
    let (_, none) = g.update(&0u8, &|w: &u8, _t: &u8| *w, 0);
    assert!(none.is_empty());
    let (_, all) = g.update(&0u8, &|w: &u8, _t: &u8| *w, 10);
    assert_eq!(all, vec![a, b, c]);
}

#[test]
fn add_child_links_and_registers() {
    let mut g = SceneGraph::new(());
    let s = g.add_child(0, Node::new(NodeType::Screen, ())).unwrap();
    let l = g.add_child(s, Node::new(NodeType::Light, ())).unwrap();
    assert_eq!((s, l), (1, 2));
    assert_eq!(g.len(), 3);
    assert_eq!(g.cameras(), &vec![s]);
    assert_eq!(g.light_sources(), &vec![l]);
    assert_eq!(g.get_node(0).children(), &vec![s]);
    assert_eq!(g.get_node(s).children(), &vec![l]);
    assert_eq!(g.get_node(l).parent(), Some(s));
    assert_eq!(g.get_node(0).parent(), None);
    assert_eq!(g.get_node(0).kind(), NodeType::Root);
}

#[test]
fn add_child_drops_links_the_node_carried() {
    let mut g = SceneGraph::new(());
    let mut n = Node::new(NodeType::Geometry, ());
    n.add_child(7);
    assert_eq!(n.children(), &vec![7]);
    let i = g.add_child(0, n).unwrap();
    assert!(g.get_node(i).children().is_empty());
    assert_eq!(g.get_node(i).parent(), Some(0));
}

#[test]
fn add_child_to_missing_parent_fails() {
    let mut g = SceneGraph::new(());
    let r = g.add_child(3, Node::new(NodeType::Light, ()));
    assert_eq!(r, Err(GraphError::NoSuchNode(3)));
    assert_eq!(g.len(), 1);
    assert!(g.light_sources().is_empty());
}

#[test]
fn draw_order_is_depth_first_preorder() {
    let mut g = SceneGraph::new(local());
    let a = g.add_child(0, mesh_node(NodeType::Geometry, 10)).unwrap();
    let b = g.add_child(0, mesh_node(NodeType::Geometry, 20)).unwrap();
    let c = g.add_child(0, mesh_node(NodeType::Geometry, 30)).unwrap();
    let a1 = g.add_child(a, mesh_node(NodeType::Geometry, 11)).unwrap();
    let c1 = g.add_child(c, mesh_node(NodeType::Geometry, 31)).unwrap();
    let a2 = g.add_child(a, mesh_node(NodeType::Geometry, 12)).unwrap();
    let a11 = g.add_child(a1, mesh_node(NodeType::Geometry, 111)).unwrap();
    let b1 = g.add_child(b, mesh_node(NodeType::Geometry, 21)).unwrap();
    let hidden = g.add_child(b, Node::new(NodeType::Root, local())).unwrap();
    let b21 = g.add_child(hidden, mesh_node(NodeType::Geometry, 221)).unwrap();
    let mut out: Vec<DrawCall> = Vec::new();
    g.render(0, true, &mut out);
    let visited: Vec<usize> = out.iter().map(|d| d.node).collect();
    assert_eq!(visited, vec![a, a1, a11, a2, b, b1, b21, c, c1]);
    let meshes: Vec<u32> = out.iter().map(|d| d.vao).collect();
    assert_eq!(meshes, vec![10, 11, 111, 12, 20, 21, 221, 30, 31]);
}

#[test]
fn draw_call_binds_textures_by_unit() {
    let mut g = SceneGraph::new(());
    let mut n = Node::new(NodeType::Screen, ());
    n.bindings.vao = Some(5);
    n.bindings.texture = Some(ImageTexture::new(40));
    n.bindings.roughness_map = Some(ImageTexture::new(43));
    n.bindings.reflection_map = Some(target(2, 41));
    n.bindings.cubemap_texture = Some(CubemapTexture::new([1, 2, 3, 4, 5, 6], 45, 16, [FRAMEBUFFER_COMPLETE; 6]).unwrap());
    let i = g.add_child(0, n).unwrap();
    let mut with = Vec::new();
    g.render(i, true, &mut with);
    assert_eq!(
        with,
        vec![DrawCall { node: i, vao: 5, base: Some(40), reflection: Some(41), normal: None, roughness: Some(43), opacity: None, cubemap: Some(45) }]
    );
    let mut without = vec![with[0]];
    g.render(i, false, &mut without);
    assert_eq!(without.len(), 2);
    assert_eq!(without[0], with[0]);
    assert_eq!(
        without[1],
        DrawCall { node: i, vao: 5, base: Some(40), reflection: None, normal: None, roughness: Some(43), opacity: None, cubemap: Some(45) }
    );
}

#[test]
fn nodes_without_mesh_draw_nothing() {
    let mut g = SceneGraph::new(());
    let mut n = Node::new(NodeType::Geometry, ());
    n.bindings.texture = Some(ImageTexture::new(1));
    g.add_child(0, n).unwrap();
    let mut out = Vec::new();
    g.render(0, true, &mut out);
    assert!(out.is_empty());
}

#[test]
fn framebuffer_target_keeps_its_size() {
    let t = FrameBufferTexture::new(3, 4, 1280, 720, FRAMEBUFFER_COMPLETE).unwrap();
    assert_eq!((t.width, t.height), (1280, 720));
    assert_eq!(t.framebuffer, Some(3));
    assert_eq!(t.texture, 4);
}

#[test]
fn incomplete_framebuffer_is_an_error() {
    let r = FrameBufferTexture::new(3, 4, 1280, 720, 0x8CD6);
    assert_eq!(r, Err(TargetError::Incomplete(0x8CD6)));
}

#[test]
fn post_processing_target_keeps_its_size_or_fails() {
    let t = PostProcessingTexture::new(1, 2, 3, 640, 480, FRAMEBUFFER_COMPLETE).unwrap();
    assert_eq!((t.width, t.height, t.color_buffer_texture, t.depth_buffer_texture), (640, 480, 2, 3));
    assert_eq!(PostProcessingTexture::new(1, 2, 3, 640, 480, 0), Err(TargetError::Incomplete(0)));
}

#[test]
fn cubemap_target_reports_first_incomplete_face() {
    let c = CubemapTexture::new([1, 2, 3, 4, 5, 6], 9, 400, [FRAMEBUFFER_COMPLETE; 6]).unwrap();
    assert_eq!(c.size, 400);
    assert_eq!(c.framebuffers, [1, 2, 3, 4, 5, 6]);
    let mut statuses = [FRAMEBUFFER_COMPLETE; 6];
    statuses[2] = 0x8CDD;
    statuses[4] = 0x8CD6;
    let r = CubemapTexture::new([1, 2, 3, 4, 5, 6], 9, 400, statuses);
    assert!(matches!(r, Err(TargetError::Incomplete(0x8CDD))));
}

#[test]
fn image_texture_has_no_framebuffer() {
    assert_eq!(ImageTexture::new(12), FrameBufferTexture { framebuffer: None, texture: 12, width: 0, height: 0 });
}

#[test]
fn screen_passes_follow_registration() {
    let mut g = SceneGraph::new(());
    g.resources.screen_shaders.push((7, target(1, 2)));
    g.resources.screen_shaders.push((8, FrameBufferTexture::new(3, 4, 10, 20, FRAMEBUFFER_COMPLETE).unwrap()));
    assert_eq!(
        g.render_screens(),
        vec![
            ScreenPass { program: 7, framebuffer: Some(1), width: 64, height: 32 },
            ScreenPass { program: 8, framebuffer: Some(3), width: 10, height: 20 },
        ]
    );
}

#[test]
fn planar_reflections_need_a_target_per_probe() {
    let mut g = SceneGraph::new(());
    let mut s = Node::new(NodeType::Screen, ());
    s.bindings.reflection_map = Some(target(5, 6));
    let p = g.add_child(0, s).unwrap();
    assert_eq!(g.render_reflections(), Ok(vec![ProbePass { node: p, face: None, framebuffer: Some(5), width: 64, height: 32 }]));
    let q = g.add_child(p, Node::new(NodeType::Screen, ())).unwrap();
    let _ = g.add_child(0, Node::new(NodeType::Screen, ())).unwrap();
    assert_eq!(g.render_reflections(), Err(RenderError::MissingReflectionTarget(q)));
}

#[test]
fn cubemap_reflections_render_six_faces_per_probe() {
    let mut g = SceneGraph::new(());
    let mut s = Node::new(NodeType::Screen, ());
    s.bindings.cubemap_texture = Some(CubemapTexture::new([11, 12, 13, 14, 15, 16], 9, 400, [FRAMEBUFFER_COMPLETE; 6]).unwrap());
    let p = g.add_child(0, s).unwrap();
    let passes = g.render_cubemap_reflections().unwrap();
    assert_eq!(passes.len(), 6);
    for (f, pass) in passes.iter().enumerate() {
        assert_eq!(*pass, ProbePass { node: p, face: Some(f), framebuffer: Some(11 + f as u32), width: 400, height: 400 });
    }
}

#[test]
fn probe_without_cubemap_is_an_error() {
    let mut g = SceneGraph::new(());
    let mut s = Node::new(NodeType::Screen, ());
    s.bindings.cubemap_texture = Some(CubemapTexture::new([11, 12, 13, 14, 15, 16], 9, 400, [FRAMEBUFFER_COMPLETE; 6]).unwrap());
    let _ = g.add_child(0, s).unwrap();
    let q = g.add_child(0, Node::new(NodeType::Screen, ())).unwrap();
    let _ = g.add_child(0, Node::new(NodeType::Screen, ())).unwrap();
    assert_eq!(g.render_cubemap_reflections(), Err(RenderError::MissingCubemapTarget(q)));
}

#[test]
fn teardown_releases_each_object_once() {
    let mut g = SceneGraph::new(());
    g.resources.vaos = vec![1, 2];
    g.resources.final_shader = Some(30);
    g.resources.screen_shaders.push((31, target(1, 2)));
    g.resources.screen_shaders.push((32, target(3, 4)));
    let mut n = Node::new(NodeType::Screen, ());
    n.bindings.texture = Some(target(1, 2));
    n.bindings.normal_map = Some(ImageTexture::new(7));
    n.bindings.reflection_map = Some(target(5, 6));
    n.bindings.cubemap_texture = Some(CubemapTexture::new([11, 12, 13, 14, 15, 16], 9, 400, [FRAMEBUFFER_COMPLETE; 6]).unwrap());
    g.add_child(0, n).unwrap();
    let mut m = Node::new(NodeType::Geometry, ());
    m.bindings.normal_map = Some(ImageTexture::new(7));
    g.add_child(0, m).unwrap();
    let released = g.teardown();
    assert_eq!(released.vaos, vec![1, 2]);
    assert_eq!(released.programs, vec![30, 31, 32]);
    let mut framebuffers = released.framebuffers.clone();
    framebuffers.sort();
    assert_eq!(framebuffers, vec![1, 3, 5, 11, 12, 13, 14, 15, 16]);
    let mut textures = released.textures.clone();
    textures.sort();
    assert_eq!(textures, vec![2, 4, 6, 7, 9]);
}

#[test]
fn setters_replace_one_part() {
    let mut g = SceneGraph::new(1u8);
    let i = g.add_child(0, Node::new(NodeType::Geometry, 2u8)).unwrap();
    let mut b = *g.node(i).bindings();
    b.vao = Some(4);
    g.get_node(i).set_bindings(b);
    g.get_node(i).set_local(9);
    assert_eq!(g.node(i).bindings().vao, Some(4));
    assert_eq!(*g.node(i).local(), 9);
    assert_eq!(g.node(i).parent(), Some(0));
    assert!(g.node(0).bindings().vao.is_none());
    let mut r = scene_render::graph::Resources { vaos: vec![4], final_shader: Some(3), reflection_shader: None, screen_shaders: vec![] };
    r.vaos.push(5);
    g.set_resources(r);
    assert_eq!(g.resources().vaos, vec![4, 5]);
    assert_eq!(g.resources().final_shader, Some(3));
    assert_eq!(g.len(), 2);
}

#[test]
fn frame_runs_screens_then_reflections_then_final_then_post() {
    let mut g = SceneGraph::new(());
    g.resources.screen_shaders.push((7, target(1, 2)));
    let mut s = Node::new(NodeType::Screen, ());
    s.bindings.reflection_map = Some(target(5, 6));
    let p = g.add_child(0, s).unwrap();
    let post = PostProcessingTexture::new(40, 41, 42, 8, 8, FRAMEBUFFER_COMPLETE).unwrap();
    let screen = Pass::Screen(ScreenPass { program: 7, framebuffer: Some(1), width: 64, height: 32 });
    assert_eq!(
        g.frame_passes(ReflectionKind::Planar, Some(post)),
        Ok(vec![
            screen,
            Pass::Probe(ProbePass { node: p, face: None, framebuffer: Some(5), width: 64, height: 32 }),
            Pass::Final { framebuffer: Some(40) },
            Pass::PostProcess,
        ])
    );
    assert_eq!(g.frame_passes(ReflectionKind::Off, None), Ok(vec![screen, Pass::Final { framebuffer: None }]));
    assert_eq!(g.frame_passes(ReflectionKind::Cubemap, None), Err(RenderError::MissingCubemapTarget(p)));
    g.get_node(p).bindings.cubemap_texture =
        Some(CubemapTexture::new([11, 12, 13, 14, 15, 16], 9, 400, [FRAMEBUFFER_COMPLETE; 6]).unwrap());
    let cube = g.frame_passes(ReflectionKind::Cubemap, None).unwrap();
    assert_eq!(cube.len(), 8);
    assert_eq!(cube[0], screen);
    assert_eq!(cube[6], Pass::Probe(ProbePass { node: p, face: Some(5), framebuffer: Some(16), width: 400, height: 400 }));
    assert_eq!(cube[7], Pass::Final { framebuffer: None });
    let q = g.add_child(0, Node::new(NodeType::Screen, ())).unwrap();
    assert_eq!(g.frame_passes(ReflectionKind::Planar, None), Err(RenderError::MissingReflectionTarget(q)));
    assert_eq!(g.root(), 0);
}

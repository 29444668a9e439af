use termesh::controls::{Action, Settings};
use termesh::dsl::parser::parse_module;
use termesh::scene::{determine_scale_factor, render_scene, rotate_scene, scale_scene, Angle, Scene};
use termesh::stl::Stl;
use termesh::Vector3;

fn fx(v: f64) -> i32 {
    (v * 65536.0).round() as i32
}

fn v3(x: f64, y: f64, z: f64) -> Vector3 {
    Vector3::new(fx(x), fx(y), fx(z))
}

fn push_vector(bytes: &mut Vec<u8>, v: [f32; 3]) {
    for c in v {
        bytes.extend_from_slice(&c.to_le_bytes());
    }
}

/// A file with the one triangle (0, 0, 0), (7, 0, 3), (0, 7, 6).
fn one_triangle() -> Stl {
    let mut bytes = vec![0; 80];
    bytes.extend_from_slice(&1u32.to_le_bytes());
    push_vector(&mut bytes, [0.0, 0.0, 1.0]);
    push_vector(&mut bytes, [0.0, 0.0, 0.0]);
    push_vector(&mut bytes, [7.0, 0.0, 3.0]);
    push_vector(&mut bytes, [0.0, 7.0, 6.0]);
    bytes.extend_from_slice(&[0, 0]);
    Stl::parse_binary(&bytes).unwrap()
}

fn settings() -> Settings {
    Settings {
        rotation_x: 0,
        rotation_y: 0,
        rotation_z: 0,
        no_depth: false,
        only_wireframe: false,
    }
}

#[test]
fn a_mesh_is_drawn_triangle_by_triangle() {
    let stl = one_triangle();
    assert_eq!(
        render_scene(&stl, true, false, None),
        vec!["⡏⠉⡩⠋".to_string(), "⡧⠊".to_string()]
    );
    assert_eq!(
        render_scene(&stl, false, false, None),
        vec!["⣿⣿⡿⠋".to_string(), "⡿⠋".to_string()]
    );
    assert_eq!(
        render_scene(&stl, true, true, None),
        vec![
            "\u{1b}[38;5;255m⡏\u{1b}[38;5;255m⠉\u{1b}[38;5;255m⡩\u{1b}[38;5;255m⠋".to_string(),
            "\u{1b}[38;5;255m⡧\u{1b}[38;5;255m⠊".to_string()
        ]
    );
}

#[test]
fn a_module_is_drawn_statement_by_statement() {
    let module = parse_module(
        "vertex a = 0 0 0\nvertex b = 3 0 0\nvertex c = 0 3 0\nline a b\ntriangle a b c",
    )
    .unwrap();
    assert_eq!(render_scene(&module, true, false, None), vec!["⡯⠋".to_string()]);
    assert_eq!(render_scene(&module, false, false, None), vec!["⡿⠋".to_string()]);
    // a window of four columns and three rows: one column and one row before
    assert_eq!(
        render_scene(&module, false, false, Some((4, 3))),
        vec![String::new(), "⠀⡿⠋".to_string()]
    );
}

#[test]
fn a_later_declaration_moves_a_vertex_for_what_follows() {
    let module = parse_module(
        "vertex a = 0 0 0\nvertex b = 2 0 0\nline a b\nvertex b = 0 3 0\nline a b",
    )
    .unwrap();
    assert_eq!(render_scene(&module, true, false, None), vec!["⡏⠁".to_string()]);
}

#[test]
fn a_scene_without_anything_to_draw_has_no_frame() {
    let module = parse_module("vertex a = 0 0 0").unwrap();
    assert_eq!(render_scene(&module, false, true, None), Vec::<String>::new());
    assert_eq!(
        render_scene(&module, false, true, Some((80, 24))),
        Vec::<String>::new()
    );
}

#[test]
fn scaling_multiplies_every_vertex() {
    let mut stl = one_triangle();
    scale_scene(&mut stl, fx(2.5));
    assert_eq!(
        stl.vertices(),
        vec![v3(0.0, 0.0, 0.0), v3(17.5, 0.0, 7.5), v3(0.0, 17.5, 15.0)]
    );
    assert_eq!(stl.facets[0].normal, v3(0.0, 0.0, 1.0));
    scale_scene(&mut stl, fx(1.0));
    assert_eq!(
        stl.vertices(),
        vec![v3(0.0, 0.0, 0.0), v3(17.5, 0.0, 7.5), v3(0.0, 17.5, 15.0)]
    );
}

#[test]
fn rotating_turns_every_vertex_around_x_then_y_then_z() {
    let quarter = Angle {
        cos: 0,
        sin: 65536,
    };
    let mut module = parse_module("vertex a = 1 2 3\nline a a\nvertex b = 0 0 1").unwrap();
    rotate_scene(&mut module, quarter, Angle::none(), Angle::none());
    assert_eq!(module.vertices(), vec![v3(1.0, -3.0, 2.0), v3(0.0, -1.0, 0.0)]);
    rotate_scene(&mut module, Angle::none(), Angle::none(), Angle::none());
    assert_eq!(module.vertices(), vec![v3(1.0, -3.0, 2.0), v3(0.0, -1.0, 0.0)]);
    // around x: (1, -2, -3); then around y: (-3, -2, -1); then around z: (2, -3, -1)
    rotate_scene(&mut module, quarter, quarter, quarter);
    assert_eq!(module.vertices(), vec![v3(2.0, -3.0, -1.0), v3(0.0, -1.0, 0.0)]);
    // the statements keep their lines and their names
    assert_eq!(module.statements[0].line, "vertex a = 1 2 3");
    assert_eq!(module.statements[1].line, "line a a");
    assert_eq!(module.statements.len(), 3);
}

#[test]
fn vertices_can_be_put_back() {
    let mut stl = one_triangle();
    let mut vertices = stl.vertices();
    vertices.reverse();
    stl.vertices_mut(&vertices);
    assert_eq!(
        stl.vertices(),
        vec![v3(0.0, 7.0, 6.0), v3(7.0, 0.0, 3.0), v3(0.0, 0.0, 0.0)]
    );
}

#[test]
fn positions_of_a_module_can_be_put_back() {
    let mut module = parse_module("vertex a = 1 2 3\nline a a\nvertex b = 0 0 1").unwrap();
    module.vertices_mut(&vec![v3(9.0, 8.0, 7.0), v3(-1.0, -2.0, -3.0)]);
    assert_eq!(module.vertices(), vec![v3(9.0, 8.0, 7.0), v3(-1.0, -2.0, -3.0)]);
    assert_eq!(module.input, "vertex a = 1 2 3\nline a a\nvertex b = 0 0 1");
    assert_eq!(module.statements[2].line, "vertex b = 0 0 1");
    assert_eq!(module.statements[2].line_no, 2);
    assert_eq!(
        module.statements[2].expr,
        termesh::dsl::ast::Expr::Vertex("b".to_string(), v3(-1.0, -2.0, -3.0))
    );
    assert_eq!(
        module.statements[1].expr,
        termesh::dsl::ast::Expr::Line("a".to_string(), "a".to_string())
    );
}

#[test]
fn the_scale_factor_fits_the_smaller_side() {
    let module = parse_module("vertex a = 0 0 0\nvertex b = 3 0 0\nvertex c = 0 3 0").unwrap();
    // 80 columns of two dots for a width of 3, 24 rows of four dots for a
    // height of 3
    assert_eq!(determine_scale_factor(&module, 80, 24), fx(32.0));
    // 10 / 3 is 218453 units, truncated
    assert_eq!(determine_scale_factor(&module, 10, 24), 436906);
    // without a vertex the extent is one by one
    let empty = parse_module("").unwrap();
    assert_eq!(determine_scale_factor(&empty, 80, 24), fx(96.0));
    // an extent of nothing does not limit the factor
    let flat = parse_module("vertex a = 0 5 0\nvertex b = 7.5 5 0").unwrap();
    assert_eq!(determine_scale_factor(&flat, 80, 24), 1398100);
    let point = parse_module("vertex a = 1 1 1").unwrap();
    assert_eq!(determine_scale_factor(&point, 80, 24), i32::MAX);
}

#[test]
fn keys_turn_the_scene_by_a_twelfth_of_a_turn() {
    let mut s = settings();
    assert_eq!(s.on_key('x'), Action::Redraw);
    assert_eq!(s.rotation_x, 34315);
    assert_eq!(s.on_key('X'), Action::Redraw);
    assert_eq!(s.on_key('X'), Action::Redraw);
    assert_eq!(s.rotation_x, -34315);
    assert_eq!(s.on_key('y'), Action::Redraw);
    assert_eq!(s.on_key('Z'), Action::Redraw);
    assert_eq!(s.on_key('z'), Action::Redraw);
    assert_eq!(s.on_key('z'), Action::Redraw);
    assert_eq!(
        s,
        Settings {
            rotation_x: -34315,
            rotation_y: 34315,
            rotation_z: 34315,
            no_depth: false,
            only_wireframe: false
        }
    );
}

#[test]
fn a_whole_turn_is_taken_out_of_an_angle() {
    let mut s = settings();
    for _ in 0..12 {
        s.on_key('x');
        s.on_key('Y');
    }
    // twelve twelfths are five units more than a turn
    assert_eq!(s.rotation_x, 5);
    assert_eq!(s.rotation_y, -5);
    s.rotation_z = i32::MAX;
    s.on_key('z');
    assert_eq!(s.rotation_z, 111337);
    s.rotation_z = i32::MIN;
    s.on_key('Z');
    assert_eq!(s.rotation_z, -111338);
}

#[test]
fn keys_switch_outlines_and_shades() {
    let mut s = settings();
    assert_eq!(s.on_key('w'), Action::Redraw);
    assert!(s.only_wireframe);
    assert_eq!(s.on_key('d'), Action::Redraw);
    assert!(s.no_depth);
    assert_eq!(s.on_key('w'), Action::Redraw);
    assert_eq!(s.on_key('d'), Action::Redraw);
    assert_eq!(s, settings());
}

#[test]
fn other_keys_leave_the_settings() {
    let mut s = settings();
    assert_eq!(s.on_key('q'), Action::Quit);
    assert_eq!(s.on_key('s'), Action::Save);
    assert_eq!(s.on_key('a'), Action::Ignore);
    assert_eq!(s.on_key('W'), Action::Ignore);
    assert_eq!(s.on_key(' '), Action::Ignore);
    assert_eq!(s, settings());
}

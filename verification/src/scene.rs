//! What can be drawn on a canvas: a mesh read from a file, or a module.

use crate::drawille::grid::{filling, lemma_drawn_concat, outline, Grid};
use crate::drawille::line::line_points;
use crate::drawille::frame::Frame;
use crate::drawille::Canvas;
use crate::dsl::ast::{same_names, same_statement, Expr, ExprView, Module, StatementView};
use crate::dsl::typecheck::{declared, fault};
use crate::fixed::{
    clamped, greater, lemma_times_one, lesser, minus, over, quotient, saturate, times, ONE,
};
use crate::stl::{Corners, Stl};
use crate::vector3::Vector3;
use vstd::prelude::*;

verus! {

/// Something with vertices that can be moved and that can be drawn.
pub trait Scene {
    /// The vertices, in order.
    spec fn points(&self) -> Seq<Vector3>;

    /// The points whose dots the scene lights when it is drawn.
    spec fn drawing(&self, only_wireframe: bool) -> Seq<Vector3>;

    /// Whether the scene can be drawn.
    spec fn drawable(&self) -> bool;

    /// Whether the scene is `before` but for the positions of its vertices.
    spec fn moved_from(&self, before: &Self) -> bool;

    /// The vertices, in order.
    fn vertices(&self) -> (v: Vec<Vector3>)
        ensures
            v@ == self.points(),
    ;

    /// Changes the vertices: puts the vertices of `v` in their place, in
    /// order.
    fn vertices_mut(&mut self, v: &Vec<Vector3>)
        requires
            v@.len() == old(self).points().len(),
        ensures
            final(self).points() == v@,
            final(self).drawable() == old(self).drawable(),
            final(self).moved_from(old(self)),
    ;

    /// Draws the scene: triangles by their outline only where
    /// `only_wireframe` is set, else filled.
    fn render(&self, canvas: &mut Canvas, only_wireframe: bool)
        requires
            self.drawable(),
            old(canvas).wf(),
        ensures
            final(canvas).wf(),
            final(canvas)@ == old(canvas)@.drawn(self.drawing(only_wireframe)),
    ;
}

/// The points of a triangle: of its outline, or of all of it.
pub open spec fn triangle_points(a: Vector3, b: Vector3, c: Vector3, only_wireframe: bool) -> Seq<
    Vector3,
> {
    if only_wireframe {
        outline(a, b, c)
    } else {
        filling(a, b, c)
    }
}

/// The points of the triangles of a mesh, one triangle after another.
pub open spec fn mesh_points(facets: Seq<Corners>, only_wireframe: bool) -> Seq<Vector3>
    decreases facets.len(),
{
    if facets.len() == 0 {
        Seq::empty()
    } else {
        let f = facets.last();
        mesh_points(facets.drop_last(), only_wireframe) + triangle_points(
            f.vertices[0],
            f.vertices[1],
            f.vertices[2],
            only_wireframe,
        )
    }
}

/// The position that the last of `statements` to declare the vertex `name`
/// gives it.
pub open spec fn position(statements: Seq<StatementView>, name: Seq<char>) -> Vector3
    decreases statements.len(),
{
    if statements.len() == 0 {
        Vector3 { x: 0, y: 0, z: 0 }
    } else {
        match statements.last().expr {
            ExprView::Vertex(id, v) if id == name => v,
            _ => position(statements.drop_last(), name),
        }
    }
}

/// The points of `expr` after the statements `before`.
pub open spec fn expr_points(before: Seq<StatementView>, expr: ExprView, only_wireframe: bool) -> Seq<
    Vector3,
> {
    match expr {
        ExprView::Vertex(_, _) => Seq::empty(),
        ExprView::Line(v0, v1) => line_points(
            position(before, v0).rounded(),
            position(before, v1).rounded(),
        ),
        ExprView::Triangle(v0, v1, v2) => triangle_points(
            position(before, v0),
            position(before, v1),
            position(before, v2),
            only_wireframe,
        ),
    }
}

/// The points of the lines and triangles of `statements`, one statement
/// after another.
pub open spec fn module_points(statements: Seq<StatementView>, only_wireframe: bool) -> Seq<
    Vector3,
>
    decreases statements.len(),
{
    if statements.len() == 0 {
        Seq::empty()
    } else {
        module_points(statements.drop_last(), only_wireframe) + expr_points(
            statements.drop_last(),
            statements.last().expr,
            only_wireframe,
        )
    }
}

/// Whether every line and triangle of `statements` names declared vertices.
pub open spec fn well_typed(statements: Seq<StatementView>) -> bool {
    forall|i: int| 0 <= i < statements.len() ==> (#[trigger] fault(statements, i)).is_none()
}

/// Draws a triangle: its outline only where `only_wireframe` is set, else all
/// of it.
fn draw_triangle(canvas: &mut Canvas, a: Vector3, b: Vector3, c: Vector3, only_wireframe: bool)
    requires
        old(canvas).wf(),
    ensures
        final(canvas).wf(),
        final(canvas)@ == old(canvas)@.drawn(triangle_points(a, b, c, only_wireframe)),
{
    if only_wireframe {
        canvas.triangle(a, b, c);
    } else {
        canvas.fill_triangle(a, b, c);
    }
}

impl Scene for Stl {
    open spec fn points(&self) -> Seq<Vector3> {
        self.all_vertices()
    }

    open spec fn drawing(&self, only_wireframe: bool) -> Seq<Vector3> {
        mesh_points(self.corners(), only_wireframe)
    }

    open spec fn drawable(&self) -> bool {
        true
    }

    open spec fn moved_from(&self, before: &Self) -> bool {
        &&& self.header == before.header
        &&& self.facets@.len() == before.facets@.len()
        &&& forall|i: int|
            0 <= i < self.facets@.len() ==> (#[trigger] self.facets@[i]).normal
                == before.facets@[i].normal
    }

    fn vertices(&self) -> (v: Vec<Vector3>) {
        Stl::vertices(self)
    }

    fn vertices_mut(&mut self, v: &Vec<Vector3>) {
        Stl::vertices_mut(self, v)
    }

    fn render(&self, canvas: &mut Canvas, only_wireframe: bool) {
        let ghost all = self.corners();
        let mut i: usize = 0;
        while i < self.facets.len()
            invariant
                i <= self.facets@.len(),
                all == self.corners(),
                canvas.wf(),
                canvas@ == old(canvas)@.drawn(mesh_points(all.take(i as int), only_wireframe)),
            decreases self.facets@.len() - i,
        {
            let f = &self.facets[i];
            proof {
                assert(all.take(i + 1).drop_last() =~= all.take(i as int));
                assert(all.take(i + 1).last() == f@);
                lemma_drawn_concat(
                    old(canvas)@,
                    mesh_points(all.take(i as int), only_wireframe),
                    triangle_points(f.vertices@[0], f.vertices@[1], f.vertices@[2], only_wireframe),
                );
            }
            draw_triangle(canvas, f.vertices[0], f.vertices[1], f.vertices[2], only_wireframe);
            i += 1;
        }
        assert(all.take(self.facets@.len() as int) =~= all);
    }
}

/// The position that the last of `env` with the name `name` holds.
fn lookup(env: &Vec<(String, Vector3)>, name: &String, Ghost(before): Ghost<Seq<StatementView>>) -> (p:
    Vector3)
    requires
        bound(env@) == bindings(before),
    ensures
        p == position(before, name@),
{
    proof {
        lemma_position(before, name@);
    }
    let mut i: usize = env.len();
    assert(bound(env@).take(env@.len() as int) =~= bound(env@));
    while i > 0
        invariant
            i <= env@.len(),
            position(before, name@) == find(bound(env@), name@),
            find(bound(env@), name@) == find(bound(env@).take(i as int), name@),
        decreases i,
    {
        proof {
            let part = bound(env@).take(i as int);
            assert(part.drop_last() =~= bound(env@).take(i - 1));
            assert(part.last() == bound(env@)[i - 1]);
            assert(bound(env@)[i - 1] == (env@[i - 1].0@, env@[i - 1].1));
        }
        i -= 1;
        if env[i].0 == *name {
            return env[i].1;
        }
    }
    assert(bound(env@).take(0) =~= Seq::<(Seq<char>, Vector3)>::empty());
    Vector3::new(0, 0, 0)
}

/// The names and positions of `env`.
pub open spec fn bound(env: Seq<(String, Vector3)>) -> Seq<(Seq<char>, Vector3)> {
    Seq::new(env.len(), |i: int| (env[i].0@, env[i].1))
}

/// The names and positions that `statements` declare, in order.
pub open spec fn bindings(statements: Seq<StatementView>) -> Seq<(Seq<char>, Vector3)>
    decreases statements.len(),
{
    if statements.len() == 0 {
        Seq::empty()
    } else {
        let init = bindings(statements.drop_last());
        match statements.last().expr {
            ExprView::Vertex(id, v) => init.push((id, v)),
            _ => init,
        }
    }
}

/// The position that the last of `env` with the name `name` holds.
pub open spec fn find(env: Seq<(Seq<char>, Vector3)>, name: Seq<char>) -> Vector3
    decreases env.len(),
{
    if env.len() == 0 {
        Vector3 { x: 0, y: 0, z: 0 }
    } else if env.last().0 == name {
        env.last().1
    } else {
        find(env.drop_last(), name)
    }
}

/// The position of a vertex is that of its last declaration.
pub proof fn lemma_position(statements: Seq<StatementView>, name: Seq<char>)
    ensures
        position(statements, name) == find(bindings(statements), name),
    decreases statements.len(),
{
    if statements.len() > 0 {
        lemma_position(statements.drop_last(), name);
        let init = bindings(statements.drop_last());
        match statements.last().expr {
            ExprView::Vertex(id, v) => {
                assert(init.push((id, v)).drop_last() =~= init);
            },
            _ => {},
        }
    }
}

impl Scene for Module {
    open spec fn points(&self) -> Seq<Vector3> {
        self.all_vertices()
    }

    open spec fn drawing(&self, only_wireframe: bool) -> Seq<Vector3> {
        module_points(self.statement_views(), only_wireframe)
    }

    open spec fn drawable(&self) -> bool {
        well_typed(self.statement_views())
    }

    open spec fn moved_from(&self, before: &Self) -> bool {
        &&& self.input == before.input
        &&& self.statements@.len() == before.statements@.len()
        &&& forall|i: int|
            0 <= i < self.statements@.len() ==> same_statement(
                #[trigger] self.statement_views()[i],
                before.statement_views()[i],
            )
    }

    fn vertices(&self) -> (v: Vec<Vector3>) {
        Module::vertices(self)
    }

    fn vertices_mut(&mut self, v: &Vec<Vector3>) {
        let ghost before = self.statement_views();
        Module::vertices_mut(self, v);
        proof {
            lemma_same_faults(self.statement_views(), before);
        }
    }

    fn render(&self, canvas: &mut Canvas, only_wireframe: bool) {
        let mut env: Vec<(String, Vector3)> = Vec::new();
        let ghost all = self.statement_views();
        let mut i: usize = 0;
        while i < self.statements.len()
            invariant
                i <= self.statements@.len(),
                all == self.statement_views(),
                canvas.wf(),
                canvas@ == old(canvas)@.drawn(module_points(all.take(i as int), only_wireframe)),
                bound(env@) == bindings(all.take(i as int)),
            decreases self.statements@.len() - i,
        {
            let stmt = &self.statements[i];
            let ghost before = all.take(i as int);
            proof {
                assert(all.take(i + 1).drop_last() =~= before);
                assert(all.take(i + 1).last() == stmt@);
                lemma_drawn_concat(
                    old(canvas)@,
                    module_points(before, only_wireframe),
                    expr_points(before, stmt@.expr, only_wireframe),
                );
            }
            match &stmt.expr {
                Expr::Vertex(name, pos) => {
                    let ghost held = bound(env@);
                    env.push((name.clone(), *pos));
                    assert(bound(env@) =~= held.push((name@, *pos)));
                    assert(module_points(before, only_wireframe) + Seq::<Vector3>::empty()
                        =~= module_points(before, only_wireframe));
                },
                Expr::Line(v0, v1) => {
                    let p0 = lookup(&env, v0, Ghost(before));
                    let p1 = lookup(&env, v1, Ghost(before));
                    canvas.line(p0, p1);
                },
                Expr::Triangle(v0, v1, v2) => {
                    let p0 = lookup(&env, v0, Ghost(before));
                    let p1 = lookup(&env, v1, Ghost(before));
                    let p2 = lookup(&env, v2, Ghost(before));
                    draw_triangle(canvas, p0, p1, p2, only_wireframe);
                },
            }
            i += 1;
        }
        assert(all.take(self.statements@.len() as int) =~= all);
    }
}

/// Statements that name the same vertices declare the same vertices.
pub proof fn lemma_same_declared(a: Seq<StatementView>, b: Seq<StatementView>, n: int)
    requires
        0 <= n <= a.len() == b.len(),
        forall|j: int| 0 <= j < a.len() ==> same_names(#[trigger] a[j].expr, b[j].expr),
    ensures
        declared(a.take(n)) == declared(b.take(n)),
    decreases n,
{
    if n > 0 {
        lemma_same_declared(a, b, n - 1);
        assert(a.take(n).drop_last() =~= a.take(n - 1));
        assert(b.take(n).drop_last() =~= b.take(n - 1));
        assert(same_names(a[n - 1].expr, b[n - 1].expr));
    }
}

/// Where statements name the same vertices as well-typed ones, they are well
/// typed.
pub proof fn lemma_same_faults(a: Seq<StatementView>, b: Seq<StatementView>)
    requires
        a.len() == b.len(),
        forall|j: int| 0 <= j < a.len() ==> same_names(#[trigger] a[j].expr, b[j].expr),
    ensures
        well_typed(a) == well_typed(b),
{
    assert forall|i: int| 0 <= i < a.len() implies (fault(a, i).is_none() <==> fault(
        b,
        i,
    ).is_none()) by {
        lemma_same_declared(a, b, i);
        assert(same_names(a[i].expr, b[i].expr));
    }
    if well_typed(a) {
        assert forall|i: int| 0 <= i < b.len() implies (#[trigger] fault(b, i)).is_none() by {
            assert(fault(a, i).is_none());
        }
    }
    if well_typed(b) {
        assert forall|i: int| 0 <= i < a.len() implies (#[trigger] fault(a, i)).is_none() by {
            assert(fault(b, i).is_none());
        }
    }
}

/// An angle, by its cosine and its sine.
#[derive(Debug, PartialEq, Eq, Clone, Copy, Structural)]
pub struct Angle {
    pub cos: i32,
    pub sin: i32,
}

impl Angle {
    /// Whether the angle is that of no turn at all.
    pub open spec fn is_none(self) -> bool {
        self.cos == ONE && self.sin == 0
    }

    /// The angle of no turn at all.
    pub fn none() -> (a: Angle)
        ensures
            a.is_none(),
    {
        Angle { cos: ONE, sin: 0 }
    }

    /// Whether the angle is that of no turn at all.
    pub fn is_zero(&self) -> (b: bool)
        ensures
            b == self.is_none(),
    {
        self.cos == ONE && self.sin == 0
    }
}

/// The point `v` turned around the X axis, then around the Y axis, then
/// around the Z axis; an angle of no turn leaves it out.
pub open spec fn turned(v: Vector3, x: Angle, y: Angle, z: Angle) -> Vector3 {
    let a = if x.is_none() {
        v
    } else {
        v.turned_x(x.cos, x.sin)
    };
    let b = if y.is_none() {
        a
    } else {
        a.turned_y(y.cos, y.sin)
    };
    if z.is_none() {
        b
    } else {
        b.turned_z(z.cos, z.sin)
    }
}

/// Turns every vertex of the scene around the three axes.
pub fn rotate_scene<S: Scene>(scene: &mut S, rotation_x: Angle, rotation_y: Angle, rotation_z: Angle)
    ensures
        final(scene).points() == Seq::new(
            old(scene).points().len(),
            |i: int| turned(old(scene).points()[i], rotation_x, rotation_y, rotation_z),
        ),
        final(scene).drawable() == old(scene).drawable(),
        *final(scene) == *old(scene) || final(scene).moved_from(old(scene)),
{
    if rotation_x.is_zero() && rotation_y.is_zero() && rotation_z.is_zero() {
        assert(scene.points() =~= Seq::new(
            scene.points().len(),
            |i: int| turned(scene.points()[i], rotation_x, rotation_y, rotation_z),
        ));
        return ;
    }
    let mut vs = scene.vertices();
    let mut i: usize = 0;
    while i < vs.len()
        invariant
            i <= vs@.len(),
            vs@.len() == scene.points().len(),
            forall|j: int|
                0 <= j < i ==> vs@[j] == turned(
                    #[trigger] scene.points()[j],
                    rotation_x,
                    rotation_y,
                    rotation_z,
                ),
            forall|j: int| i <= j < vs@.len() ==> vs@[j] == scene.points()[j],
        decreases vs@.len() - i,
    {
        let mut v = vs[i];
        if !rotation_x.is_zero() {
            v.rotate_x(rotation_x.cos, rotation_x.sin);
        }
        if !rotation_y.is_zero() {
            v.rotate_y(rotation_y.cos, rotation_y.sin);
        }
        if !rotation_z.is_zero() {
            v.rotate_z(rotation_z.cos, rotation_z.sin);
        }
        vs[i] = v;
        i += 1;
    }
    assert(vs@ =~= Seq::new(
        scene.points().len(),
        |i: int| turned(scene.points()[i], rotation_x, rotation_y, rotation_z),
    ));
    scene.vertices_mut(&vs);
}

/// Scales every vertex of the scene by `scale`.
pub fn scale_scene<S: Scene>(scene: &mut S, scale: i32)
    ensures
        final(scene).points() == Seq::new(
            old(scene).points().len(),
            |i: int| old(scene).points()[i].scaled(scale),
        ),
        final(scene).drawable() == old(scene).drawable(),
        *final(scene) == *old(scene) || final(scene).moved_from(old(scene)),
{
    let mut vs = scene.vertices();
    if scale == ONE {
        assert forall|i: int| 0 <= i < vs@.len() implies vs@[i] == vs@[i].scaled(scale) by {
            let v = vs@[i];
            lemma_times_one(v.x as int);
            lemma_times_one(v.y as int);
            lemma_times_one(v.z as int);
        }
        assert(vs@ =~= Seq::new(vs@.len(), |i: int| vs@[i].scaled(scale)));
        return ;
    }
    let mut i: usize = 0;
    while i < vs.len()
        invariant
            i <= vs@.len(),
            vs@.len() == scene.points().len(),
            forall|j: int| 0 <= j < i ==> vs@[j] == (#[trigger] scene.points()[j]).scaled(scale),
            forall|j: int| i <= j < vs@.len() ==> vs@[j] == scene.points()[j],
        decreases vs@.len() - i,
    {
        let mut v = vs[i];
        v.mul_assign(scale);
        vs[i] = v;
        i += 1;
    }
    assert(vs@ =~= Seq::new(scene.points().len(), |i: int| scene.points()[i].scaled(scale)));
    scene.vertices_mut(&vs);
}

/// The least and the greatest first and second coordinates of points.
pub struct Extent {
    pub min_x: i32,
    pub min_y: i32,
    pub max_x: i32,
    pub max_y: i32,
}

/// The extent of `pts`, which has a point.
pub open spec fn extent_of(pts: Seq<Vector3>) -> Extent
    decreases pts.len(),
{
    if pts.len() <= 1 {
        Extent { min_x: pts[0].x, min_y: pts[0].y, max_x: pts[0].x, max_y: pts[0].y }
    } else {
        let e = extent_of(pts.drop_last());
        let v = pts.last();
        Extent {
            min_x: if v.x < e.min_x {
                v.x
            } else {
                e.min_x
            },
            min_y: if v.y < e.min_y {
                v.y
            } else {
                e.min_y
            },
            max_x: if v.x > e.max_x {
                v.x
            } else {
                e.max_x
            },
            max_y: if v.y > e.max_y {
                v.y
            } else {
                e.max_y
            },
        }
    }
}

/// The factor by which `extent` grows to `cells` cells of `dots` dots each;
/// it is as large as can be where the extent is nothing.
pub open spec fn factor(cells: u16, extent: i32, dots: int) -> int {
    if extent == 0 {
        i32::MAX as int
    } else {
        let len = clamped(cells * ONE);
        let ratio = clamped(quotient(len * ONE, extent as int));
        clamped(quotient(ratio * (dots * ONE), ONE as int))
    }
}

/// The factor that makes points as wide as `max_width` cells or as high as
/// `max_height` cells, whichever is less: a cell is two dots wide and four
/// dots high. Without a point, the extent counts as one by one.
pub open spec fn scale_factor(pts: Seq<Vector3>, max_width: u16, max_height: u16) -> int {
    let (w, h) = if pts.len() == 0 {
        (ONE as int, ONE as int)
    } else {
        let e = extent_of(pts);
        (clamped(e.max_x - e.min_x), clamped(e.max_y - e.min_y))
    };
    let scalex = factor(max_width, w as i32, 2);
    let scaley = factor(max_height, h as i32, 4);
    if scalex <= scaley {
        scalex
    } else {
        scaley
    }
}

/// The factor by which `extent` grows to `cells` cells of `dots` dots each.
fn factor_of(cells: u16, extent: i32, dots: i32) -> (f: i32)
    requires
        dots == 2 || dots == 4,
    ensures
        f == factor(cells, extent, dots as int),
{
    if extent == 0 {
        i32::MAX
    } else {
        let len = saturate(cells as i64 * 65536);
        times(over(len, extent), dots * 65536)
    }
}

/// The factor that makes the scene fit a terminal of `max_width` columns and
/// `max_height` rows.
pub fn determine_scale_factor<S: Scene>(scene: &S, max_width: u16, max_height: u16) -> (f: i32)
    ensures
        f == scale_factor(scene.points(), max_width, max_height),
{
    let vs = scene.vertices();

    let (w, h) = if vs.len() == 0 {
        (65536, 65536)
    } else {
        let mut min_x = vs[0].x;
        let mut min_y = vs[0].y;
        let mut max_x = vs[0].x;
        let mut max_y = vs[0].y;
        let mut i: usize = 1;
        assert(vs@.take(1).len() == 1);
        while i < vs.len()
            invariant
                1 <= i <= vs@.len(),
                (Extent { min_x, min_y, max_x, max_y }) == extent_of(vs@.take(i as int)),
            decreases vs@.len() - i,
        {
            proof {
                assert(vs@.take(i + 1).drop_last() =~= vs@.take(i as int));
            }
            let v = vs[i];
            min_x = lesser(min_x, v.x);
            min_y = lesser(min_y, v.y);
            max_x = greater(max_x, v.x);
            max_y = greater(max_y, v.y);
            i += 1;
        }
        assert(vs@.take(vs@.len() as int) =~= vs@);
        (minus(max_x, min_x), minus(max_y, min_y))
    };

    let scalex = factor_of(max_width, w, 2);
    let scaley = factor_of(max_height, h, 4);

    lesser(scalex, scaley)
}

/// The frame of the dots of `pts` on a canvas without a dot: all the rows
/// that hold a lit dot where no window is given, else the window of
/// `max_dimensions`, as columns and rows, with the lit cells in its middle.
pub open spec fn frame_of(
    pts: Seq<Vector3>,
    with_colors: bool,
    max_dimensions: Option<(i32, i32)>,
) -> Frame {
    let grid = Grid::empty().drawn(pts);
    match max_dimensions {
        None => Frame::whole(grid, with_colors),
        Some((max_width, max_height)) => Frame::windowed(grid, with_colors, max_width, max_height),
    }
}

/// Draws the scene on a canvas of its own and hands out the lines of the
/// frame.
pub fn render_scene<S: Scene>(
    scene: &S,
    only_wireframe: bool,
    with_colors: bool,
    max_dimensions: Option<(i32, i32)>,
) -> (frame: Vec<String>)
    requires
        scene.drawable(),
    ensures
        frame@.len() == frame_of(
            scene.drawing(only_wireframe),
            with_colors,
            max_dimensions,
        ).len(),
        forall|i: int|
            0 <= i < frame@.len() ==> (#[trigger] frame@[i])@ == frame_of(
                scene.drawing(only_wireframe),
                with_colors,
                max_dimensions,
            ).lines()[i],
{
    let mut canvas = Canvas::new();

    scene.render(&mut canvas, only_wireframe);

    match max_dimensions {
        None => canvas.rows(with_colors).collect(),
        Some((max_width, max_height)) => canvas.centered_frame(
            with_colors,
            max_width,
            max_height,
        ).collect(),
    }
}

} // verus!

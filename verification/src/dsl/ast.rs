//! The statements of a module.

use crate::vector3::Vector3;
use vstd::prelude::*;

verus! {

/// A text and the statements that it holds, in order.
#[derive(Debug, PartialEq, Clone)]
pub struct Module {
    pub input: String,
    pub statements: Vec<Statement>,
}

/// What a line says, with the line itself and its number, which counts from
/// zero.
#[derive(Debug, PartialEq, Clone)]
pub struct Statement {
    pub line: String,
    pub line_no: usize,
    pub expr: Expr,
}

/// What a statement says.
#[derive(Debug, PartialEq, Clone)]
pub enum Expr {
    /// A vertex gets a name and a position.
    Vertex(Identifier, Vector3),
    /// A line between two vertices.
    Line(Identifier, Identifier),
    /// A triangle between three vertices.
    Triangle(Identifier, Identifier, Identifier),
}

/// The name of a vertex.
pub type Identifier = String;

/// What went wrong, with the line it went wrong on and the number of that
/// line, which counts from zero.
#[derive(Debug, PartialEq, Eq, Clone)]
pub struct Error<K> {
    pub line: String,
    pub line_no: usize,
    pub kind: K,
}

/// What an expression says, with every identifier as its characters.
pub enum ExprView {
    Vertex(Seq<char>, Vector3),
    Line(Seq<char>, Seq<char>),
    Triangle(Seq<char>, Seq<char>, Seq<char>),
}

/// What a statement says, with its line as its characters.
pub struct StatementView {
    pub line: Seq<char>,
    pub line_no: usize,
    pub expr: ExprView,
}

impl View for Expr {
    type V = ExprView;

    open spec fn view(&self) -> ExprView {
        match *self {
            Expr::Vertex(id, v) => ExprView::Vertex(id@, v),
            Expr::Line(v0, v1) => ExprView::Line(v0@, v1@),
            Expr::Triangle(v0, v1, v2) => ExprView::Triangle(v0@, v1@, v2@),
        }
    }
}

impl View for Statement {
    type V = StatementView;

    open spec fn view(&self) -> StatementView {
        StatementView { line: self.line@, line_no: self.line_no, expr: self.expr@ }
    }
}

impl Module {
    /// The statements of the module, by their views.
    pub open spec fn statement_views(&self) -> Seq<StatementView> {
        Seq::new(self.statements@.len(), |i: int| self.statements@[i]@)
    }

    /// The positions of the vertices that the module declares, in order.
    pub open spec fn all_vertices(&self) -> Seq<Vector3> {
        vertices_of(self.statement_views())
    }

    /// The positions of the vertices that the module declares, in order.
    pub fn vertices(&self) -> (v: Vec<Vector3>)
        ensures
            v@ == self.all_vertices(),
    {
        let mut v: Vec<Vector3> = Vec::new();
        let mut i: usize = 0;
        while i < self.statements.len()
            invariant
                i <= self.statements@.len(),
                v@ == vertices_of(self.statement_views().take(i as int)),
            decreases self.statements@.len() - i,
        {
            proof {
                let all = self.statement_views();
                assert(all.take(i + 1).drop_last() =~= all.take(i as int));
                assert(all.take(i + 1).last() == self.statements@[i as int]@);
            }
            match &self.statements[i].expr {
                Expr::Vertex(_, p) => {
                    v.push(*p);
                },
                _ => {},
            }
            i += 1;
        }
        assert(self.statement_views().take(self.statements@.len() as int)
            =~= self.statement_views());
        v
    }

    /// Changes the vertices: puts the positions of `v` in the place of their
    /// positions, in order. The statements keep their lines and the names of
    /// their vertices.
    pub fn vertices_mut(&mut self, v: &Vec<Vector3>)
        requires
            v@.len() == old(self).all_vertices().len(),
        ensures
            final(self).all_vertices() == v@,
            final(self).input == old(self).input,
            final(self).statements@.len() == old(self).statements@.len(),
            forall|i: int|
                0 <= i < old(self).statements@.len() ==> same_statement(
                    #[trigger] final(self).statement_views()[i],
                    old(self).statement_views()[i],
                ),
    {
        let mut statements: Vec<Statement> = Vec::with_capacity(self.statements.len());
        let mut i: usize = 0;
        let mut k: usize = 0;
        let ghost all = self.statement_views();
        assert(v.len() == vertices_of(all).len());
        let ghost mut seen: Seq<StatementView> = Seq::empty();
        while i < self.statements.len()
            invariant
                i <= self.statements@.len(),
                all == self.statement_views(),
                v@.len() == vertices_of(all).len(),
                k == vertices_of(all.take(i as int)).len(),
                k <= v@.len(),
                v@.len() <= usize::MAX,
                seen == Seq::new(statements@.len(), |j: int| statements@[j]@),
                seen.len() == i,
                forall|j: int| 0 <= j < i ==> same_statement(#[trigger] seen[j], all[j]),
                vertices_of(seen) == v@.take(k as int),
            decreases self.statements@.len() - i,
        {
            let s = &self.statements[i];
            proof {
                assert(all.take(i + 1).drop_last() =~= all.take(i as int));
                assert(all.take(i + 1).last() == s@);
                lemma_vertices_grow(all, i + 1);
            }
            let expr = match &s.expr {
                Expr::Vertex(id, _) => {
                    let e = Expr::Vertex(id.clone(), v[k]);
                    proof {
                        assert(v@.take(k + 1) =~= v@.take(k as int).push(v@[k as int]));
                    }
                    k += 1;
                    e
                },
                Expr::Line(v0, v1) => Expr::Line(v0.clone(), v1.clone()),
                Expr::Triangle(v0, v1, v2) => Expr::Triangle(v0.clone(), v1.clone(), v2.clone()),
            };
            let statement = Statement { line: s.line.clone(), line_no: s.line_no, expr };
            proof {
                assert(seen.push(statement@).drop_last() =~= seen);
                seen = seen.push(statement@);
            }
            statements.push(statement);
            assert(seen =~= Seq::new(statements@.len(), |j: int| statements@[j]@));
            i += 1;
        }
        proof {
            assert(all.take(self.statements@.len() as int) =~= all);
            assert(v@.take(v@.len() as int) =~= v@);
        }
        self.statements = statements;
        assert(self.statement_views() =~= seen);
    }
}

/// The positions of the vertices that `statements` declare, in order.
pub open spec fn vertices_of(statements: Seq<StatementView>) -> Seq<Vector3>
    decreases statements.len(),
{
    if statements.len() == 0 {
        Seq::empty()
    } else {
        let init = vertices_of(statements.drop_last());
        match statements.last().expr {
            ExprView::Vertex(_, v) => init.push(v),
            _ => init,
        }
    }
}

/// Whether two statements have the same line and the same line number, and
/// name the same vertices.
pub open spec fn same_statement(a: StatementView, b: StatementView) -> bool {
    &&& a.line == b.line
    &&& a.line_no == b.line_no
    &&& same_names(a.expr, b.expr)
}

/// Whether two expressions are of one kind and name the same vertices.
pub open spec fn same_names(a: ExprView, b: ExprView) -> bool {
    match (a, b) {
        (ExprView::Vertex(m, _), ExprView::Vertex(n, _)) => m == n,
        (ExprView::Line(m0, m1), ExprView::Line(n0, n1)) => m0 == n0 && m1 == n1,
        (ExprView::Triangle(m0, m1, m2), ExprView::Triangle(n0, n1, n2)) => m0 == n0 && m1 == n1
            && m2 == n2,
        _ => false,
    }
}

/// The vertices of the first statements are the first vertices of all.
pub proof fn lemma_vertices_grow(statements: Seq<StatementView>, n: int)
    requires
        0 <= n <= statements.len(),
    ensures
        vertices_of(statements.take(n)).len() <= vertices_of(
            statements,
        ).len(),
    decreases statements.len(),
{
    if n < statements.len() {
        assert(statements.drop_last().take(n) =~= statements.take(n));
        lemma_vertices_grow(statements.drop_last(), n);
    } else {
        assert(statements.take(n) =~= statements);
    }
}

} // verus!

//! Every vertex is declared before a line or a triangle names it.

use crate::dsl::ast::{Error, Expr, ExprView, Module, Statement, StatementView};
use vstd::prelude::*;
use vstd::string::StringExecFns;

verus! {

/// Why a module does not pass, and where.
pub type TypeCheckError = Error<TypeCheckErrorKind>;

/// Why a statement does not pass.
#[derive(Debug, PartialEq, Eq, Clone)]
pub enum TypeCheckErrorKind {
    /// The name of a vertex that no statement before declares.
    UndeclaredVariable(String),
}

/// The vertices that `statements` declare.
pub open spec fn declared(statements: Seq<StatementView>) -> Set<Seq<char>>
    decreases statements.len(),
{
    if statements.len() == 0 {
        Set::empty()
    } else {
        let init = declared(statements.drop_last());
        match statements.last().expr {
            ExprView::Vertex(id, _) => init.insert(id),
            _ => init,
        }
    }
}

/// The first vertex that `expr` names and `env` does not hold.
pub open spec fn undeclared(expr: ExprView, env: Set<Seq<char>>) -> Option<Seq<char>> {
    match expr {
        ExprView::Vertex(_, _) => None,
        ExprView::Line(v0, v1) => if !env.contains(v0) {
            Some(v0)
        } else if !env.contains(v1) {
            Some(v1)
        } else {
            None
        },
        ExprView::Triangle(v0, v1, v2) => if !env.contains(v0) {
            Some(v0)
        } else if !env.contains(v1) {
            Some(v1)
        } else if !env.contains(v2) {
            Some(v2)
        } else {
            None
        },
    }
}

/// The first vertex that the statement at index `i` names and no statement
/// before it declares.
pub open spec fn fault(statements: Seq<StatementView>, i: int) -> Option<Seq<char>> {
    undeclared(statements[i].expr, declared(statements.take(i)))
}

/// Whether one of `env` reads `name`.
pub open spec fn holds(env: Seq<String>, name: Seq<char>) -> bool {
    exists|i: int| 0 <= i < env.len() && (#[trigger] env[i])@ == name
}

/// Whether `env` holds `name`.
fn has_vertex(env: &Vec<String>, name: &String) -> (found: bool)
    ensures
        found == holds(env@, name@),
{
    let mut i: usize = 0;
    while i < env.len()
        invariant
            i <= env@.len(),
            forall|j: int| 0 <= j < i ==> (#[trigger] env@[j])@ != name@,
        decreases env@.len() - i,
    {
        if env[i] == *name {
            return true;
        }
        i += 1;
    }
    false
}

/// The error for the vertex `v` of the statement `stmt`.
fn undeclared_in(v: &String, stmt: &Statement) -> (e: TypeCheckError)
    ensures
        e.line@ == stmt.line@,
        e.line_no == stmt.line_no,
        e.kind matches TypeCheckErrorKind::UndeclaredVariable(name) && name@ == v@,
{
    Error {
        line: stmt.line.clone(),
        line_no: stmt.line_no,
        kind: TypeCheckErrorKind::UndeclaredVariable(v.clone()),
    }
}

/// Checks that every line and every triangle names vertices that a statement
/// before it declares. The error is for the first statement that does not,
/// and for the first such vertex that it names.
pub fn type_check(module: &Module) -> (r: Result<(), TypeCheckError>)
    ensures
        match r {
            Ok(()) => forall|i: int|
                0 <= i < module.statements@.len() ==> fault(module.statement_views(), i).is_none(),
            Err(e) => exists|i: int|
                {
                    &&& 0 <= i < module.statements@.len()
                    &&& forall|j: int| 0 <= j < i ==> fault(module.statement_views(), j).is_none()
                    &&& #[trigger] fault(module.statement_views(), i) matches Some(name)
                    &&& e.kind matches TypeCheckErrorKind::UndeclaredVariable(v)
                    &&& v@ == name
                    &&& e.line@ == module.statements@[i].line@
                    &&& e.line_no == module.statements@[i].line_no
                },
        },
{
    let mut env: Vec<String> = Vec::new();
    let ghost all = module.statement_views();

    let mut i: usize = 0;
    while i < module.statements.len()
        invariant
            i <= module.statements@.len(),
            all == module.statement_views(),
            forall|n: Seq<char>| #[trigger]
                declared(all.take(i as int)).contains(n) <==> holds(env@, n),
            forall|j: int| 0 <= j < i ==> fault(all, j).is_none(),
        decreases module.statements@.len() - i,
    {
        let stmt = &module.statements[i];
        let ghost before = env@;
        proof {
            assert(all.take(i + 1).drop_last() =~= all.take(i as int));
            assert(all.take(i + 1).last() == stmt@);
            assert(all[i as int] == stmt@);
        }
        match &stmt.expr {
            Expr::Vertex(n, _) => {
                env.push(n.clone());
                proof {
                    assert(fault(all, i as int).is_none());
                    assert(env@[before.len() as int]@ == n@);
                    assert forall|m: Seq<char>| #[trigger]
                        declared(all.take(i + 1)).contains(m) <==> holds(env@, m) by {
                        if declared(all.take(i as int)).contains(m) {
                            assert(holds(before, m));
                            let k = choose|k: int|
                                0 <= k < before.len() && (#[trigger] before[k])@ == m;
                            assert(env@[k]@ == m);
                        }
                        if holds(env@, m) {
                            let k = choose|k: int|
                                0 <= k < env@.len() && (#[trigger] env@[k])@ == m;
                            if k < before.len() {
                                assert(before[k]@ == m);
                            }
                        }
                    }
                }
            },
            Expr::Line(v0, v1) => {
                assert(stmt@.expr == ExprView::Line(v0@, v1@));
                if !has_vertex(&env, v0) {
                    let e = undeclared_in(v0, stmt);
                    assert(fault(all, i as int) == Some(v0@));
                    return Err(e);
                }
                if !has_vertex(&env, v1) {
                    let e = undeclared_in(v1, stmt);
                    assert(fault(all, i as int) == Some(v1@));
                    return Err(e);
                }
                assert(fault(all, i as int).is_none());
            },
            Expr::Triangle(v0, v1, v2) => {
                assert(stmt@.expr == ExprView::Triangle(v0@, v1@, v2@));
                if !has_vertex(&env, v0) {
                    let e = undeclared_in(v0, stmt);
                    assert(fault(all, i as int) == Some(v0@));
                    return Err(e);
                }
                if !has_vertex(&env, v1) {
                    let e = undeclared_in(v1, stmt);
                    assert(fault(all, i as int) == Some(v1@));
                    return Err(e);
                }
                if !has_vertex(&env, v2) {
                    let e = undeclared_in(v2, stmt);
                    assert(fault(all, i as int) == Some(v2@));
                    return Err(e);
                }
                assert(fault(all, i as int).is_none());
            },
        }
        assert(declared(all.take(i + 1)) == match stmt@.expr {
            ExprView::Vertex(id, _) => declared(all.take(i as int)).insert(id),
            _ => declared(all.take(i as int)),
        });
        i += 1;
    }

    Ok(())
}

impl TypeCheckErrorKind {
    /// What the error says of the vertex `name`.
    pub open spec fn message_of(name: Seq<char>) -> Seq<char> {
        "cannot find variable `"@ + name + "` in this scope"@
    }

    /// What the error says, for a reader.
    pub fn message(&self) -> (m: String)
        ensures
            self matches TypeCheckErrorKind::UndeclaredVariable(var) && m@ == Self::message_of(
                var@,
            ),
    {
        match self {
            TypeCheckErrorKind::UndeclaredVariable(var) => String::from_str(
                "cannot find variable `",
            ).concat(var.as_str()).concat("` in this scope"),
        }
    }
}

} // verus!

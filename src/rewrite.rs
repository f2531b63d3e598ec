//! The rewrite engine: retargets every use of one identifier to another.
//!
//! Each `renamed_*` predicate relates a tree before and after the rewrite:
//! the shape is kept, and at each identifier-bearing use position the name
//! equal to `old` becomes `new`. Declared names are never touched.
use vstd::prelude::*;
use crate::syntax::{
    CaseSelector, CompoundStatement, ContinuingStatement, Declaration, ElseIfClause, Expression,
    FormalParameter, Function, FunctionCall, GlobalDeclaration, Statement, Struct, StructMember,
    SwitchClause, TranslationUnit, TypeAlias, TypeExpression,
};

verus! {

pub open spec fn renamed_ident(a: String, b: String, old: Seq<char>, new: Seq<char>) -> bool {
    b@ == (if a@ == old { new } else { a@ })
}

pub open spec fn renamed_type(a: TypeExpression, b: TypeExpression, old: Seq<char>, new: Seq<char>) -> bool {
    renamed_ident(a.name, b.name, old, new)
}

pub open spec fn renamed_opt_type(
    a: Option<TypeExpression>,
    b: Option<TypeExpression>,
    old: Seq<char>,
    new: Seq<char>,
) -> bool {
    match a {
        None => b is None,
        Some(x) => b is Some && renamed_type(x, b->Some_0, old, new),
    }
}

pub open spec fn renamed_expr(a: Expression, b: Expression, old: Seq<char>, new: Seq<char>) -> bool
    decreases a,
{
    match a {
        Expression::Literal(t) => b == Expression::Literal(t),
        Expression::Parenthesized(x) => match b {
            Expression::Parenthesized(y) => renamed_expr(*x, *y, old, new),
            _ => false,
        },
        Expression::NamedComponent(x, c) => match b {
            Expression::NamedComponent(y, d) => d == c && renamed_expr(*x, *y, old, new),
            _ => false,
        },
        Expression::Indexing(x, i) => match b {
            Expression::Indexing(y, j) => renamed_expr(*x, *y, old, new) && renamed_expr(*i, *j, old, new),
            _ => false,
        },
        Expression::Unary(op, x) => match b {
            Expression::Unary(op2, y) => op2 == op && renamed_expr(*x, *y, old, new),
            _ => false,
        },
        Expression::Binary(op, l, r) => match b {
            Expression::Binary(op2, l2, r2) => op2 == op && renamed_expr(*l, *l2, old, new)
                && renamed_expr(*r, *r2, old, new),
            _ => false,
        },
        Expression::FunctionCall(c) => match b {
            Expression::FunctionCall(d) => renamed_ident(c.name, d.name, old, new)
                && d.arguments@.len() == c.arguments@.len()
                && forall|i: int| 0 <= i < c.arguments@.len() ==>
                    renamed_expr(#[trigger] c.arguments@[i], d.arguments@[i], old, new),
            _ => false,
        },
        Expression::Type(t) => match b {
            Expression::Type(u) => renamed_type(t, u, old, new),
            _ => false,
        },
    }
}

pub open spec fn renamed_opt_expr(
    a: Option<Expression>,
    b: Option<Expression>,
    old: Seq<char>,
    new: Seq<char>,
) -> bool {
    match a {
        None => b is None,
        Some(x) => b is Some && renamed_expr(x, b->Some_0, old, new),
    }
}

fn rename_ident(a: String, old: &String, new: &String) -> (r: String)
    ensures
        renamed_ident(a, r, old@, new@),
{
    if a == *old {
        new.clone()
    } else {
        a
    }
}

fn rename_type(a: TypeExpression, old: &String, new: &String) -> (r: TypeExpression)
    ensures
        renamed_type(a, r, old@, new@),
{
    TypeExpression { name: rename_ident(a.name, old, new) }
}

fn rename_opt_type(a: Option<TypeExpression>, old: &String, new: &String) -> (r: Option<TypeExpression>)
    ensures
        renamed_opt_type(a, r, old@, new@),
{
    match a {
        None => None,
        Some(x) => Some(rename_type(x, old, new)),
    }
}

/// Rewrites every use of `old` inside an expression.
pub fn rename_expr(a: Expression, old: &String, new: &String) -> (r: Expression)
    ensures
        renamed_expr(a, r, old@, new@),
    decreases a,
{
    let ghost ga = a;
    match a {
        Expression::Literal(t) => Expression::Literal(t),
        Expression::Parenthesized(x) => Expression::Parenthesized(Box::new(rename_expr(*x, old, new))),
        Expression::NamedComponent(x, c) => Expression::NamedComponent(Box::new(rename_expr(*x, old, new)), c),
        Expression::Indexing(x, i) => {
            let y = rename_expr(*x, old, new);
            let j = rename_expr(*i, old, new);
            Expression::Indexing(Box::new(y), Box::new(j))
        },
        Expression::Unary(op, x) => Expression::Unary(op, Box::new(rename_expr(*x, old, new))),
        Expression::Binary(op, l, r) => {
            let l2 = rename_expr(*l, old, new);
            let r2 = rename_expr(*r, old, new);
            Expression::Binary(op, Box::new(l2), Box::new(r2))
        },
        Expression::FunctionCall(c) => {
            let ghost gc = c;
            let ghost args = c.arguments@;
            let name = rename_ident(c.name, old, new);
            let mut rest = c.arguments;
            let mut out: Vec<Expression> = Vec::new();
            while rest.len() > 0
                invariant
                    out@.len() + rest@.len() == args.len(),
                    args == gc.arguments@,
                    ga == Expression::FunctionCall(gc),
                    ga == a,
                    rest@ == args.subrange(out@.len() as int, args.len() as int),
                    forall|i: int| 0 <= i < out@.len() ==> renamed_expr(#[trigger] args[i], out@[i], old@, new@),
                decreases rest@.len(),
            {
                let ghost k = out@.len();
                let x = rest.remove(0);
                proof {
                    assert(x == args[k as int]);
                    assert(decreases_to!(gc.arguments@ => gc.arguments@[k as int]));
                    assert(decreases_to!(gc.arguments => gc.arguments@));
                    assert(decreases_to!(ga => ga->FunctionCall_0));
                }
                let y = rename_expr(x, old, new);
                out.push(y);
                proof {
                    assert(rest@ =~= args.subrange(out@.len() as int, args.len() as int));
                }
            }
            Expression::FunctionCall(FunctionCall { name, arguments: out })
        },
        Expression::Type(t) => Expression::Type(rename_type(t, old, new)),
    }
}

fn rename_opt_expr(a: Option<Expression>, old: &String, new: &String) -> (r: Option<Expression>)
    ensures
        renamed_opt_expr(a, r, old@, new@),
{
    match a {
        None => None,
        Some(x) => Some(rename_expr(x, old, new)),
    }
}

pub open spec fn renamed_selector(a: CaseSelector, b: CaseSelector, old: Seq<char>, new: Seq<char>) -> bool {
    match a {
        CaseSelector::Default => b is Default,
        CaseSelector::Expression(x) => b is Expression && renamed_expr(x, b->Expression_0, old, new),
    }
}

pub open spec fn renamed_decl(a: Declaration, b: Declaration, old: Seq<char>, new: Seq<char>) -> bool {
    &&& b.kind == a.kind
    &&& b.name == a.name
    &&& renamed_opt_type(a.ty, b.ty, old, new)
    &&& renamed_opt_expr(a.initializer, b.initializer, old, new)
}

pub open spec fn renamed_block(a: CompoundStatement, b: CompoundStatement, old: Seq<char>, new: Seq<char>) -> bool
    decreases a,
{
    &&& b.statements@.len() == a.statements@.len()
    &&& forall|i: int| 0 <= i < a.statements@.len() ==>
        renamed_stat(#[trigger] a.statements@[i], b.statements@[i], old, new)
}

pub open spec fn renamed_stat(a: Statement, b: Statement, old: Seq<char>, new: Seq<char>) -> bool
    decreases a,
{
    match a {
        Statement::Void => b is Void,
        Statement::Compound(x) => b is Compound && renamed_block(x, b->Compound_0, old, new),
        Statement::Assignment(op, l, r) => b is Assignment && b->Assignment_0 == op
            && renamed_expr(l, b->Assignment_1, old, new) && renamed_expr(r, b->Assignment_2, old, new),
        Statement::Increment(x) => b is Increment && renamed_expr(x, b->Increment_0, old, new),
        Statement::Decrement(x) => b is Decrement && renamed_expr(x, b->Decrement_0, old, new),
        Statement::If(c, body, elifs, els) => b is If && renamed_expr(c, b->If_0, old, new)
            && renamed_block(body, b->If_1, old, new)
            && b->If_2@.len() == elifs@.len()
            && (forall|i: int| 0 <= i < elifs@.len() ==>
                renamed_expr(#[trigger] elifs@[i].condition, b->If_2@[i].condition, old, new)
                && renamed_block(elifs@[i].body, b->If_2@[i].body, old, new))
            && match els {
                None => b->If_3 is None,
                Some(e) => b->If_3 is Some && renamed_block(e, b->If_3->Some_0, old, new),
            },
        Statement::Switch(x, clauses) => b is Switch && renamed_expr(x, b->Switch_0, old, new)
            && b->Switch_1@.len() == clauses@.len()
            && (forall|i: int| 0 <= i < clauses@.len() ==>
                (#[trigger] clauses@[i]).case_selectors@.len() == b->Switch_1@[i].case_selectors@.len()
                && (forall|j: int| 0 <= j < clauses@[i].case_selectors@.len() ==>
                    renamed_selector(#[trigger] clauses@[i].case_selectors@[j],
                        b->Switch_1@[i].case_selectors@[j], old, new))
                && renamed_block(clauses@[i].body, b->Switch_1@[i].body, old, new)),
        Statement::Loop(body, cont) => b is Loop && renamed_block(body, b->Loop_0, old, new)
            && match cont {
                None => b->Loop_1 is None,
                Some(c) => b->Loop_1 is Some && renamed_block(c.body, b->Loop_1->Some_0.body, old, new)
                    && renamed_opt_expr(c.break_if, b->Loop_1->Some_0.break_if, old, new),
            },
        Statement::For(init, cond, upd, body) => b is For
            && match init {
                None => b->For_0 is None,
                Some(x) => b->For_0 is Some && renamed_stat(*x, *b->For_0->Some_0, old, new),
            }
            && renamed_opt_expr(cond, b->For_1, old, new)
            && match upd {
                None => b->For_2 is None,
                Some(x) => b->For_2 is Some && renamed_stat(*x, *b->For_2->Some_0, old, new),
            }
            && renamed_block(body, b->For_3, old, new),
        Statement::While(c, body) => b is While && renamed_expr(c, b->While_0, old, new)
            && renamed_block(body, b->While_1, old, new),
        Statement::Break => b is Break,
        Statement::Continue => b is Continue,
        Statement::Return(x) => b is Return && renamed_opt_expr(x, b->Return_0, old, new),
        Statement::Discard => b is Discard,
        Statement::FunctionCall(c) => b is FunctionCall
            && renamed_expr(Expression::FunctionCall(c), Expression::FunctionCall(b->FunctionCall_0), old, new),
        Statement::ConstAssert(x) => b is ConstAssert && renamed_expr(x, b->ConstAssert_0, old, new),
        Statement::Declaration(d) => b is Declaration && renamed_decl(d, b->Declaration_0, old, new),
    }
}

fn rename_selectors(a: Vec<CaseSelector>, old: &String, new: &String) -> (r: Vec<CaseSelector>)
    ensures
        r@.len() == a@.len(),
        forall|j: int| 0 <= j < a@.len() ==> renamed_selector(#[trigger] a@[j], r@[j], old@, new@),
{
    let ghost sels = a@;
    let mut rest = a;
    let mut out: Vec<CaseSelector> = Vec::new();
    while rest.len() > 0
        invariant
            out@.len() + rest@.len() == sels.len(),
            rest@ == sels.subrange(out@.len() as int, sels.len() as int),
            forall|j: int| 0 <= j < out@.len() ==> renamed_selector(#[trigger] sels[j], out@[j], old@, new@),
        decreases rest@.len(),
    {
        let ghost k = out@.len();
        let x = rest.remove(0);
        assert(x == sels[k as int]);
        let y = match x {
            CaseSelector::Default => CaseSelector::Default,
            CaseSelector::Expression(e) => CaseSelector::Expression(rename_expr(e, old, new)),
        };
        out.push(y);
        assert(rest@ =~= sels.subrange(out@.len() as int, sels.len() as int));
    }
    out
}

fn rename_decl(a: Declaration, old: &String, new: &String) -> (r: Declaration)
    ensures
        renamed_decl(a, r, old@, new@),
{
    Declaration {
        kind: a.kind,
        name: a.name,
        ty: rename_opt_type(a.ty, old, new),
        initializer: rename_opt_expr(a.initializer, old, new),
    }
}

/// Rewrites every use of `old` inside a block of statements.
pub fn rename_block(a: CompoundStatement, old: &String, new: &String) -> (r: CompoundStatement)
    ensures
        renamed_block(a, r, old@, new@),
    decreases a,
{
    let ghost stats = a.statements@;
    let mut rest = a.statements;
    let mut out: Vec<Statement> = Vec::new();
    while rest.len() > 0
        invariant
            out@.len() + rest@.len() == stats.len(),
            rest@ == stats.subrange(out@.len() as int, stats.len() as int),
            forall|i: int| 0 <= i < out@.len() ==> renamed_stat(#[trigger] stats[i], out@[i], old@, new@),
            stats == a.statements@,
        decreases rest@.len(),
    {
        let ghost k = out@.len();
        let x = rest.remove(0);
        proof {
            assert(x == stats[k as int]);
            assert(decreases_to!(a.statements@ => a.statements@[k as int]));
            assert(decreases_to!(a.statements => a.statements@));
        }
        let y = rename_stat(x, old, new);
        out.push(y);
        assert(rest@ =~= stats.subrange(out@.len() as int, stats.len() as int));
    }
    CompoundStatement { statements: out }
}

/// Rewrites every use of `old` inside a statement.
pub fn rename_stat(a: Statement, old: &String, new: &String) -> (r: Statement)
    ensures
        renamed_stat(a, r, old@, new@),
    decreases a,
{
    let ghost ga = a;
    match a {
        Statement::Void => Statement::Void,
        Statement::Compound(x) => Statement::Compound(rename_block(x, old, new)),
        Statement::Assignment(op, l, r) => {
            let l2 = rename_expr(l, old, new);
            let r2 = rename_expr(r, old, new);
            Statement::Assignment(op, l2, r2)
        },
        Statement::Increment(x) => Statement::Increment(rename_expr(x, old, new)),
        Statement::Decrement(x) => Statement::Decrement(rename_expr(x, old, new)),
        Statement::If(c, body, elifs, els) => {
            let c2 = rename_expr(c, old, new);
            let body2 = rename_block(body, old, new);
            let ghost clauses = elifs@;
            let mut rest = elifs;
            let mut out: Vec<ElseIfClause> = Vec::new();
            while rest.len() > 0
                invariant
                    out@.len() + rest@.len() == clauses.len(),
                    rest@ == clauses.subrange(out@.len() as int, clauses.len() as int),
                    forall|i: int| 0 <= i < out@.len() ==>
                        renamed_expr(#[trigger] clauses[i].condition, out@[i].condition, old@, new@)
                        && renamed_block(clauses[i].body, out@[i].body, old@, new@),
                    ga == a,
                    ga is If,
                    clauses == ga->If_2@,
                decreases rest@.len(),
            {
                let ghost k = out@.len();
                let x = rest.remove(0);
                proof {
                    assert(x == clauses[k as int]);
                    assert(decreases_to!(ga->If_2@ => ga->If_2@[k as int]));
                    assert(decreases_to!(ga->If_2 => ga->If_2@));
                    assert(decreases_to!(ga => ga->If_2));
                }
                let cond = rename_expr(x.condition, old, new);
                let b = rename_block(x.body, old, new);
                out.push(ElseIfClause { condition: cond, body: b });
                assert(rest@ =~= clauses.subrange(out@.len() as int, clauses.len() as int));
            }
            let els2 = match els {
                None => None,
                Some(e) => Some(rename_block(e, old, new)),
            };
            Statement::If(c2, body2, out, els2)
        },
        Statement::Switch(x, clauses) => {
            let x2 = rename_expr(x, old, new);
            let ghost cls = clauses@;
            let mut rest = clauses;
            let mut out: Vec<SwitchClause> = Vec::new();
            while rest.len() > 0
                invariant
                    out@.len() + rest@.len() == cls.len(),
                    rest@ == cls.subrange(out@.len() as int, cls.len() as int),
                    forall|i: int| 0 <= i < out@.len() ==>
                        (#[trigger] cls[i]).case_selectors@.len() == out@[i].case_selectors@.len()
                        && (forall|j: int| 0 <= j < cls[i].case_selectors@.len() ==>
                            renamed_selector(#[trigger] cls[i].case_selectors@[j],
                                out@[i].case_selectors@[j], old@, new@))
                        && renamed_block(cls[i].body, out@[i].body, old@, new@),
                    ga == a,
                    ga is Switch,
                    cls == ga->Switch_1@,
                decreases rest@.len(),
            {
                let ghost k = out@.len();
                let c = rest.remove(0);
                proof {
                    assert(c == cls[k as int]);
                    assert(decreases_to!(ga->Switch_1@ => ga->Switch_1@[k as int]));
                    assert(decreases_to!(ga->Switch_1 => ga->Switch_1@));
                    assert(decreases_to!(ga => ga->Switch_1));
                }
                let sels = rename_selectors(c.case_selectors, old, new);
                let b = rename_block(c.body, old, new);
                out.push(SwitchClause { case_selectors: sels, body: b });
                assert(rest@ =~= cls.subrange(out@.len() as int, cls.len() as int));
            }
            Statement::Switch(x2, out)
        },
        Statement::Loop(body, cont) => {
            let body2 = rename_block(body, old, new);
            let cont2 = match cont {
                None => None,
                Some(c) => {
                    let b = rename_block(c.body, old, new);
                    Some(ContinuingStatement { body: b, break_if: rename_opt_expr(c.break_if, old, new) })
                },
            };
            Statement::Loop(body2, cont2)
        },
        Statement::For(init, cond, upd, body) => {
            let init2 = match init {
                None => None,
                Some(x) => Some(Box::new(rename_stat(*x, old, new))),
            };
            let cond2 = rename_opt_expr(cond, old, new);
            let upd2 = match upd {
                None => None,
                Some(x) => Some(Box::new(rename_stat(*x, old, new))),
            };
            let body2 = rename_block(body, old, new);
            Statement::For(init2, cond2, upd2, body2)
        },
        Statement::While(c, body) => {
            let c2 = rename_expr(c, old, new);
            Statement::While(c2, rename_block(body, old, new))
        },
        Statement::Break => Statement::Break,
        Statement::Continue => Statement::Continue,
        Statement::Return(x) => Statement::Return(rename_opt_expr(x, old, new)),
        Statement::Discard => Statement::Discard,
        Statement::FunctionCall(c) => {
            match rename_expr(Expression::FunctionCall(c), old, new) {
                Expression::FunctionCall(d) => Statement::FunctionCall(d),
                _ => {
                    assert(false);
                    Statement::Void
                },
            }
        },
        Statement::ConstAssert(x) => Statement::ConstAssert(rename_expr(x, old, new)),
        Statement::Declaration(d) => Statement::Declaration(rename_decl(d, old, new)),
    }
}

pub open spec fn renamed_global(
    a: GlobalDeclaration,
    b: GlobalDeclaration,
    old: Seq<char>,
    new: Seq<char>,
) -> bool {
    match a {
        GlobalDeclaration::Void => b is Void,
        GlobalDeclaration::Declaration(d) => b is Declaration && renamed_decl(d, b->Declaration_0, old, new),
        GlobalDeclaration::TypeAlias(t) => b is TypeAlias && b->TypeAlias_0.name == t.name
            && renamed_type(t.ty, b->TypeAlias_0.ty, old, new),
        GlobalDeclaration::Struct(st) => b is Struct && b->Struct_0.name == st.name
            && b->Struct_0.members@.len() == st.members@.len()
            && forall|i: int| 0 <= i < st.members@.len() ==>
                (#[trigger] st.members@[i]).name == b->Struct_0.members@[i].name
                && renamed_type(st.members@[i].ty, b->Struct_0.members@[i].ty, old, new),
        GlobalDeclaration::Function(f) => b is Function && b->Function_0.name == f.name
            && b->Function_0.parameters@.len() == f.parameters@.len()
            && (forall|i: int| 0 <= i < f.parameters@.len() ==>
                (#[trigger] f.parameters@[i]).name == b->Function_0.parameters@[i].name
                && renamed_type(f.parameters@[i].ty, b->Function_0.parameters@[i].ty, old, new))
            && renamed_opt_type(f.return_type, b->Function_0.return_type, old, new)
            && renamed_block(f.body, b->Function_0.body, old, new),
        GlobalDeclaration::ConstAssert(x) => b is ConstAssert && renamed_expr(x, b->ConstAssert_0, old, new),
        GlobalDeclaration::Import(d) => b == a,
    }
}

/// The whole unit after every use of `old` became `new`.
pub open spec fn renamed_unit(a: Seq<GlobalDeclaration>, b: Seq<GlobalDeclaration>, old: Seq<char>, new: Seq<char>) -> bool {
    &&& b.len() == a.len()
    &&& forall|i: int| 0 <= i < a.len() ==> renamed_global(#[trigger] a[i], b[i], old, new)
}

fn rename_members(a: Vec<StructMember>, old: &String, new: &String) -> (r: Vec<StructMember>)
    ensures
        r@.len() == a@.len(),
        forall|i: int| 0 <= i < a@.len() ==> (#[trigger] a@[i]).name == r@[i].name
            && renamed_type(a@[i].ty, r@[i].ty, old@, new@),
{
    let ghost ms = a@;
    let mut rest = a;
    let mut out: Vec<StructMember> = Vec::new();
    while rest.len() > 0
        invariant
            out@.len() + rest@.len() == ms.len(),
            rest@ == ms.subrange(out@.len() as int, ms.len() as int),
            forall|i: int| 0 <= i < out@.len() ==> (#[trigger] ms[i]).name == out@[i].name
                && renamed_type(ms[i].ty, out@[i].ty, old@, new@),
        decreases rest@.len(),
    {
        let ghost k = out@.len();
        let m = rest.remove(0);
        assert(m == ms[k as int]);
        out.push(StructMember { name: m.name, ty: rename_type(m.ty, old, new) });
        assert(rest@ =~= ms.subrange(out@.len() as int, ms.len() as int));
    }
    out
}

fn rename_parameters(a: Vec<FormalParameter>, old: &String, new: &String) -> (r: Vec<FormalParameter>)
    ensures
        r@.len() == a@.len(),
        forall|i: int| 0 <= i < a@.len() ==> (#[trigger] a@[i]).name == r@[i].name
            && renamed_type(a@[i].ty, r@[i].ty, old@, new@),
{
    let ghost ps = a@;
    let mut rest = a;
    let mut out: Vec<FormalParameter> = Vec::new();
    while rest.len() > 0
        invariant
            out@.len() + rest@.len() == ps.len(),
            rest@ == ps.subrange(out@.len() as int, ps.len() as int),
            forall|i: int| 0 <= i < out@.len() ==> (#[trigger] ps[i]).name == out@[i].name
                && renamed_type(ps[i].ty, out@[i].ty, old@, new@),
        decreases rest@.len(),
    {
        let ghost k = out@.len();
        let p = rest.remove(0);
        assert(p == ps[k as int]);
        out.push(FormalParameter { name: p.name, ty: rename_type(p.ty, old, new) });
        assert(rest@ =~= ps.subrange(out@.len() as int, ps.len() as int));
    }
    out
}

/// Rewrites every use of `old` inside one global declaration.
pub fn rename_global(a: GlobalDeclaration, old: &String, new: &String) -> (r: GlobalDeclaration)
    ensures
        renamed_global(a, r, old@, new@),
{
    match a {
        GlobalDeclaration::Void => GlobalDeclaration::Void,
        GlobalDeclaration::Declaration(d) => GlobalDeclaration::Declaration(rename_decl(d, old, new)),
        GlobalDeclaration::TypeAlias(t) => {
            let ty = rename_type(t.ty, old, new);
            GlobalDeclaration::TypeAlias(TypeAlias { name: t.name, ty })
        },
        GlobalDeclaration::Struct(st) => {
            let members = rename_members(st.members, old, new);
            GlobalDeclaration::Struct(Struct { name: st.name, members })
        },
        GlobalDeclaration::Function(f) => {
            let parameters = rename_parameters(f.parameters, old, new);
            let return_type = rename_opt_type(f.return_type, old, new);
            let body = rename_block(f.body, old, new);
            GlobalDeclaration::Function(Function { name: f.name, parameters, return_type, body })
        },
        GlobalDeclaration::ConstAssert(x) => GlobalDeclaration::ConstAssert(rename_expr(x, old, new)),
        GlobalDeclaration::Import(d) => GlobalDeclaration::Import(d),
    }
}

/// Replaces every use of the identifier `old_ident` in `unit` by `new_ident`: value and
/// type references, function-call callees, in every expression and statement
/// position. Declared names and import directives are left as they are.
pub fn replace_imported_ident(unit: &mut TranslationUnit, old_ident: &String, new_ident: &String)
    ensures
        renamed_unit(old(unit).global_declarations@, final(unit).global_declarations@, old_ident@, new_ident@),
{
    let mut decls: Vec<GlobalDeclaration> = Vec::new();
    std::mem::swap(&mut decls, &mut unit.global_declarations);
    let ghost ds = decls@;
    let mut out: Vec<GlobalDeclaration> = Vec::new();
    while decls.len() > 0
        invariant
            out@.len() + decls@.len() == ds.len(),
            decls@ == ds.subrange(out@.len() as int, ds.len() as int),
            forall|i: int| 0 <= i < out@.len() ==> renamed_global(#[trigger] ds[i], out@[i], old_ident@, new_ident@),
        decreases decls@.len(),
    {
        let ghost k = out@.len();
        let d = decls.remove(0);
        assert(d == ds[k as int]);
        out.push(rename_global(d, old_ident, new_ident));
        assert(decls@ =~= ds.subrange(out@.len() as int, ds.len() as int));
    }
    unit.global_declarations = out;
}

} // verus!

use vstd::prelude::*;

use crate::names::view_map;
use crate::names::Table;
use crate::parser::decl::ArgView;
use crate::parser::expr::Expr;
use crate::parser::expr::ExprView;
use crate::parser::expr::Literal;
use crate::parser::expr::LiteralView;
use crate::ty::tys_view;
use crate::ty::Ty;
use crate::ty::TyView;
use crate::views;

use super::error::Error;
use super::error::ErrorView;
use super::func::FuncView;
use super::stmt::NodeView;
use super::stmt::Stmt;
use super::tree::Tree;

verus! {

/// The types of parameters, in order.
pub open spec fn param_tys(params: Seq<ArgView>) -> Seq<TyView> {
    Seq::new(params.len(), |i: int| params[i].ty)
}

/// The type of an expression of the statement `stmt`, where `vars` holds
/// the types of the variables and `funcs` the functions.
///
/// A number is an `i32` and a string of either kind a `str`. A variable has
/// the type that `vars` holds for it. A call has the type that its function
/// returns, if its arguments fit: a function that is not variadic takes as
/// many arguments as it has parameters, and each argument that has a
/// parameter has the type of that parameter. Too few arguments are reported
/// as a `void` where the types of the missing ones had to stand, too many as
/// the type of the first of them where nothing had to stand.
pub open spec fn expr_ty(
    expr: ExprView,
    stmt: NodeView,
    vars: Map<Seq<char>, TyView>,
    funcs: Map<Seq<char>, FuncView>,
) -> Result<TyView, ErrorView>
    decreases expr, 0nat,
{
    match expr {
        ExprView::Literal(lit) => match lit {
            LiteralView::Int { .. } => Ok(TyView::I32),
            _ => Ok(TyView::Str),
        },
        ExprView::Var(name) => if vars.contains_key(name) {
            Ok(vars[name])
        } else {
            Err(ErrorView::UnknownVariable { stmt, name })
        },
        ExprView::Func(call) => if !funcs.contains_key(call.name) {
            Err(ErrorView::UnknownFunction { stmt, name: call.name })
        } else {
            let decl = funcs[call.name];
            if call.args.len() < decl.args.len() && !decl.variadic {
                Err(
                    ErrorView::WrongTy {
                        stmt,
                        returned: TyView::Void,
                        accepted: param_tys(decl.args.skip(call.args.len() as int)),
                    },
                )
            } else if call.args.len() > decl.args.len() && !decl.variadic {
                match expr_ty(call.args[decl.args.len() as int], stmt, vars, funcs) {
                    Ok(ty) => Err(
                        ErrorView::WrongTy { stmt, returned: ty, accepted: Seq::empty() },
                    ),
                    Err(error) => Err(error),
                }
            } else {
                match args_ty(call.args, decl.args, 0, stmt, vars, funcs) {
                    Some(error) => Err(error),
                    None => Ok(decl.ret),
                }
            }
        },
    }
}

/// The first error among the arguments from index `a` on that have a
/// parameter: an argument that has no type, or another type than its
/// parameter.
pub open spec fn args_ty(
    args: Seq<ExprView>,
    params: Seq<ArgView>,
    a: int,
    stmt: NodeView,
    vars: Map<Seq<char>, TyView>,
    funcs: Map<Seq<char>, FuncView>,
) -> Option<ErrorView>
    decreases args, args.len() - a,
{
    if a < 0 || a >= args.len() || a >= params.len() {
        None
    } else {
        match expr_ty(args[a], stmt, vars, funcs) {
            Err(error) => Some(error),
            Ok(ty) => if ty != params[a].ty {
                Some(ErrorView::WrongTy { stmt, returned: ty, accepted: seq![params[a].ty] })
            } else {
                args_ty(args, params, a + 1, stmt, vars, funcs)
            },
        }
    }
}

/// The error of an expression without a type is one error: it does not
/// hold several.
pub proof fn lemma_expr_ty_plain(
    expr: ExprView,
    stmt: NodeView,
    vars: Map<Seq<char>, TyView>,
    funcs: Map<Seq<char>, FuncView>,
)
    ensures
        expr_ty(expr, stmt, vars, funcs) matches Err(error) ==> !(error is Multiple),
    decreases expr, 0nat,
{
    if let ExprView::Func(call) = expr {
        if funcs.contains_key(call.name) {
            let decl = funcs[call.name];
            if call.args.len() < decl.args.len() && !decl.variadic {
            } else if call.args.len() > decl.args.len() && !decl.variadic {
                lemma_expr_ty_plain(call.args[decl.args.len() as int], stmt, vars, funcs);
            } else {
                lemma_args_ty_plain(call.args, decl.args, 0, stmt, vars, funcs);
            }
        }
    }
}

/// The first error among arguments is one error: it does not hold several.
pub proof fn lemma_args_ty_plain(
    args: Seq<ExprView>,
    params: Seq<ArgView>,
    a: int,
    stmt: NodeView,
    vars: Map<Seq<char>, TyView>,
    funcs: Map<Seq<char>, FuncView>,
)
    ensures
        args_ty(args, params, a, stmt, vars, funcs) matches Some(error) ==> !(error is Multiple),
    decreases args, args.len() - a,
{
    if a < 0 || a >= args.len() || a >= params.len() {
    } else {
        lemma_expr_ty_plain(args[a], stmt, vars, funcs);
        if let Ok(ty) = expr_ty(args[a], stmt, vars, funcs) {
            if ty == params[a].ty {
                lemma_args_ty_plain(args, params, a + 1, stmt, vars, funcs);
            }
        }
    }
}

/// A call with more arguments than its function has parameters, where the
/// function is not variadic and the first argument too many has a type, is
/// reported as that type standing where nothing had to stand.
pub proof fn lemma_too_many_arguments(
    call: crate::parser::expr::FuncView,
    stmt: NodeView,
    vars: Map<Seq<char>, TyView>,
    funcs: Map<Seq<char>, FuncView>,
)
    requires
        funcs.contains_key(call.name),
        !funcs[call.name].variadic,
        call.args.len() > funcs[call.name].args.len(),
        expr_ty(call.args[funcs[call.name].args.len() as int], stmt, vars, funcs) is Ok,
    ensures
        expr_ty(ExprView::Func(call), stmt, vars, funcs) == Err::<TyView, ErrorView>(
            ErrorView::WrongTy {
                stmt,
                returned: expr_ty(
                    call.args[funcs[call.name].args.len() as int],
                    stmt,
                    vars,
                    funcs,
                )->Ok_0,
                accepted: Seq::empty(),
            },
        ),
{
}

/// A call with fewer arguments than its function has parameters, where the
/// function is not variadic, is reported as a `void` standing where the
/// types of the parameters without an argument had to stand.
pub proof fn lemma_too_few_arguments(
    call: crate::parser::expr::FuncView,
    stmt: NodeView,
    vars: Map<Seq<char>, TyView>,
    funcs: Map<Seq<char>, FuncView>,
)
    requires
        funcs.contains_key(call.name),
        !funcs[call.name].variadic,
        call.args.len() < funcs[call.name].args.len(),
    ensures
        expr_ty(ExprView::Func(call), stmt, vars, funcs) matches Err(
            ErrorView::WrongTy { stmt: found, returned, accepted },
        ) && found == stmt && returned == TyView::Void && accepted.len()
            == funcs[call.name].args.len() - call.args.len() && (forall|i: int|
            0 <= i < accepted.len() ==> accepted[i] == funcs[call.name].args[call.args.len()
                + i].ty),
{
}

impl<'e> Expr<'e> {
    /// The type of this expression of the statement `stmt`, where `vars`
    /// holds the types of the variables.
    pub fn ty(&'e self, stmt: &'e Stmt<'e>, vars: &Table<Ty<'e>>, tree: &'e Tree<'e>) -> (r: Result<
        Ty<'e>,
        Error<'e>,
    >)
        requires
            vars.wf(),
            tree.wf(),
        ensures
            match expr_ty(self@, stmt@, view_map(*vars), tree@.funcs) {
                Ok(ty) => r is Ok && r->Ok_0@ == ty,
                Err(error) => r is Err && r->Err_0@ == error,
            },
        decreases self@, 0nat,
    {
        match self {
            Expr::Literal(lit) => match lit {
                Literal::Int { .. } => Ok(Ty::I32),
                Literal::String { .. } => Ok(Ty::Str),
                Literal::DynString { .. } => Ok(Ty::Str),
            },
            Expr::Var(var) => match vars.get(var.inner()) {
                Some(ty) => Ok(ty.duplicate()),
                None => Err(Error::unknown_variable(stmt, var.as_ref())),
            },
            Expr::Func(func) => {
                let decl = match tree.funcs().get(func.name.inner()) {
                    Some(decl) => decl,
                    None => {
                        return Err(Error::unknown_function(stmt, func.name.as_ref()));
                    },
                };
                let given = func.args.inner();
                let ghost args = self@->Func_0.args;
                let ghost params = decl@.args;
                assert(args == crate::parser::expr::exprs_view(given@));
                if given.len() < decl.args.len() && !decl.variadic {
                    let mut accepted: Vec<Ty<'e>> = Vec::new();
                    let mut a: usize = given.len();
                    while a < decl.args.len()
                        invariant
                            given@.len() <= a <= decl.args@.len(),
                            params == views(decl.args@),
                            accepted@.len() == a - given@.len(),
                            forall|i: int|
                                0 <= i < accepted@.len() ==> accepted@[i]@ == params[given@.len()
                                    + i].ty,
                        decreases decl.args@.len() - a,
                    {
                        accepted.push(decl.args[a].ty.as_ref());
                        a += 1;
                    }
                    assert(tys_view(accepted@) =~= param_tys(params.skip(given@.len() as int)));
                    return Err(Error::wrong_ty(stmt, Ty::Void, accepted));
                } else if given.len() > decl.args.len() && !decl.variadic {
                    let extra = &given[decl.args.len()];
                    assert(args[decl.args@.len() as int] == extra@);
                    let accepted: Vec<Ty<'e>> = Vec::new();
                    assert(tys_view(accepted@) =~= Seq::<TyView>::empty());
                    return match extra.ty(stmt, vars, tree) {
                        Ok(ty) => Err(Error::wrong_ty(stmt, ty, accepted)),
                        Err(err) => Err(err),
                    };
                }
                let ghost whole = expr_ty(self@, stmt@, view_map(*vars), tree@.funcs);
                let mut a: usize = 0;
                while a < given.len() && a < decl.args.len()
                    invariant
                        a <= given@.len(),
                        whole == expr_ty(self@, stmt@, view_map(*vars), tree@.funcs),
                        whole == (match args_ty(
                            args,
                            params,
                            0,
                            stmt@,
                            view_map(*vars),
                            tree@.funcs,
                        ) {
                            Some(error) => Err::<TyView, ErrorView>(error),
                            None => Ok::<TyView, ErrorView>(decl@.ret),
                        }),
                        vars.wf(),
                        tree.wf(),
                        args == crate::parser::expr::exprs_view(given@),
                        self@ is Func,
                        args == self@->Func_0.args,
                        params == views(decl.args@),
                        args_ty(args, params, a as int, stmt@, view_map(*vars), tree@.funcs)
                            == args_ty(args, params, 0, stmt@, view_map(*vars), tree@.funcs),
                    decreases given@.len() - a,
                {
                    assert(args[a as int] == given@[a as int]@);
                    let ty = match given[a].ty(stmt, vars, tree) {
                        Ok(ty) => ty,
                        Err(err) => {
                            return Err(err);
                        },
                    };
                    if !ty.same(&decl.args[a].ty) {
                        let mut accepted: Vec<Ty<'e>> = Vec::new();
                        accepted.push(decl.args[a].ty.as_ref());
                        assert(tys_view(accepted@) =~= seq![params[a as int].ty]);
                        return Err(Error::wrong_ty(stmt, ty, accepted));
                    }
                    a += 1;
                }
                Ok(decl.ret.duplicate())
            },
        }
    }
}

} // verus!

use vstd::prelude::*;

use crate::lexer::Ident;
use crate::parser::decl;
use crate::parser::decl::Arg;
use crate::parser::decl::ArgView;
use crate::ty::Ty;
use crate::ty::TyView;
use crate::parser::stmt::StmtView;
use crate::views;

use crate::names::view_map;
use crate::names::Table;

use super::error::collapse;
use super::error::concat;
use super::error::flat;
use super::error::lemma_concat_flat;
use super::error::lemma_flat_collapse;
use super::error::plain;
use super::expr::lemma_expr_ty_plain;
use super::error::settle;
use super::error::Error;
use super::error::ErrorView;
use super::expr::expr_ty;
use super::stmt::arena_view;
use super::stmt::NodeView;
use super::stmt::Stmt;
use super::tree::linked;
use super::tree::Tree;
use super::tree::TreeView;

verus! {

/// A function of the tree: its signature and the place of its first
/// statement in the arena. A function without statements has none.
#[derive(Debug)]
pub struct Func<'f> {
    pub name: Ident<'f>,
    pub args: &'f [Arg<'f>],
    pub ret: Ty<'f>,
    pub variadic: bool,
    pub start: Option<usize>,
}

/// What a `Func` stands for.
pub struct FuncView {
    pub name: Seq<char>,
    pub args: Seq<ArgView>,
    pub ret: TyView,
    pub variadic: bool,
    pub start: Option<usize>,
}

impl<'f> View for Func<'f> {
    type V = FuncView;

    open spec fn view(&self) -> FuncView {
        FuncView {
            name: self.name@,
            args: views(self.args@),
            ret: self.ret@,
            variadic: self.variadic,
            start: self.start,
        }
    }
}

/// The statements `stmts` as a chain in the slots from `base` on: each but
/// the last has the next one in the slot after its own.
pub open spec fn chain(base: int, stmts: Seq<StmtView>) -> Seq<Option<NodeView>> {
    Seq::new(
        stmts.len(),
        |k: int|
            Some(
                NodeView {
                    stmt: stmts[k],
                    next: if k + 1 < stmts.len() {
                        Some((base + k + 1) as usize)
                    } else {
                        None
                    },
                },
            ),
    )
}

/// The function of the tree for a declaration whose statements go into
/// the arena from slot `base` on.
pub open spec fn func_at(base: int, func: decl::FuncView) -> FuncView {
    FuncView {
        name: func.name,
        args: func.args,
        ret: func.ret,
        variadic: func.variadic,
        start: if func.stmts.len() > 0 {
            Some(base as usize)
        } else {
            None
        },
    }
}

/// The types of the variables at the start of a function with the
/// parameters `args`: the type of each parameter under its name; of two of
/// one name, the later one.
pub open spec fn seed(args: Seq<ArgView>) -> Map<Seq<char>, TyView>
    decreases args.len(),
{
    if args.len() == 0 {
        Map::empty()
    } else {
        seed(args.drop_last()).insert(args.last().name, args.last().ty)
    }
}

/// How the check of a function that returns `ret` ends after its last
/// statement: a function that returns a value has to have a `return`.
pub open spec fn finish(ret: TyView, returned: bool, errors: ErrorView) -> Result<(), ErrorView> {
    if !returned && ret != TyView::Void {
        Err(ErrorView::MissingReturn(ret))
    } else {
        settle(errors)
    }
}

/// How many slots of an arena of `len` slots a walk from slot `at` on has
/// before it at most.
pub open spec fn left(at: Option<usize>, len: nat) -> nat {
    match at {
        Some(i) => if i < len {
            (len - i) as nat
        } else {
            0
        },
        None => 0,
    }
}

/// The check of the statements of a function that returns `ret`, from the
/// statement in slot `at` on, with the types `vars` of the variables, where
/// `returned` says whether a `return` was seen and `errors` holds the errors
/// found.
///
/// A `let` gives its variable the type of its value; a value without a type
/// is an error, after which the check goes on. A `return` of another type
/// than `ret`, or of a value without a type, is an error, after which the
/// check goes on. An expression that has no type ends the check with its
/// error alone.
pub open spec fn walk(
    tree: TreeView,
    ret: TyView,
    at: Option<usize>,
    vars: Map<Seq<char>, TyView>,
    returned: bool,
    errors: ErrorView,
) -> Result<(), ErrorView>
    decreases left(at, tree.stmts.len()),
{
    match at {
        None => finish(ret, returned, errors),
        Some(i) => if i >= tree.stmts.len() || tree.stmts[i as int] is None {
            finish(ret, returned, errors)
        } else {
            let node = tree.stmts[i as int]->Some_0;
            let next = match node.next {
                Some(next) => if next > i {
                    Some(next)
                } else {
                    None
                },
                None => None,
            };
            match node.stmt {
                StmtView::Let(let_) => match expr_ty(let_.value, node, vars, tree.funcs) {
                    Ok(ty) => walk(tree, ret, next, vars.insert(let_.name, ty), returned, errors),
                    Err(error) => walk(tree, ret, next, vars, returned, concat(errors, error)),
                },
                StmtView::Return(expr) => match expr_ty(expr, node, vars, tree.funcs) {
                    Ok(ty) => walk(
                        tree,
                        ret,
                        next,
                        vars,
                        true,
                        if ty != ret {
                            concat(
                                errors,
                                ErrorView::WrongTy { stmt: node, returned: ty, accepted: seq![ret] },
                            )
                        } else {
                            errors
                        },
                    ),
                    Err(error) => walk(tree, ret, next, vars, true, concat(errors, error)),
                },
                StmtView::Expr(expr) => match expr_ty(expr, node, vars, tree.funcs) {
                    Ok(_) => walk(tree, ret, next, vars, returned, errors),
                    Err(error) => Err(error),
                },
            }
        },
    }
}

/// The check of a function: of its statements from the first one on, with
/// the types of its parameters, and with no error yet.
pub open spec fn func_check(tree: TreeView, func: FuncView) -> Result<(), ErrorView> {
    walk(tree, func.ret, func.start, seed(func.args), false, ErrorView::Multiple(Seq::empty()))
}

/// Whether an error has the shape of the error of a check: one error, or
/// two or more errors none of which holds several itself.
pub open spec fn shaped(error: ErrorView) -> bool {
    error matches ErrorView::Multiple(errors) ==> errors.len() >= 2 && plain(errors)
}

/// The error of the check of statements has the shape of the error of a
/// check, where the errors found before are single errors.
pub proof fn lemma_walk_shaped(
    tree: TreeView,
    ret: TyView,
    at: Option<usize>,
    vars: Map<Seq<char>, TyView>,
    returned: bool,
    errors: Seq<ErrorView>,
)
    requires
        plain(errors),
    ensures
        walk(tree, ret, at, vars, returned, ErrorView::Multiple(errors)) matches Err(error)
            ==> shaped(error),
    decreases left(at, tree.stmts.len()),
{
    lemma_flat_collapse(errors);
    match at {
        None => {},
        Some(i) => if i >= tree.stmts.len() || tree.stmts[i as int] is None {
        } else {
            let node = tree.stmts[i as int]->Some_0;
            let next = match node.next {
                Some(next) => if next > i {
                    Some(next)
                } else {
                    None
                },
                None => None,
            };
            match node.stmt {
                StmtView::Let(let_) => {
                    lemma_expr_ty_plain(let_.value, node, vars, tree.funcs);
                    match expr_ty(let_.value, node, vars, tree.funcs) {
                        Ok(ty) => {
                            lemma_walk_shaped(
                                tree,
                                ret,
                                next,
                                vars.insert(let_.name, ty),
                                returned,
                                errors,
                            );
                        },
                        Err(error) => {
                            lemma_concat_flat(errors, error);
                            lemma_walk_shaped(tree, ret, next, vars, returned, errors + flat(error));
                        },
                    }
                },
                StmtView::Return(expr) => {
                    lemma_expr_ty_plain(expr, node, vars, tree.funcs);
                    match expr_ty(expr, node, vars, tree.funcs) {
                        Ok(ty) => {
                            if ty != ret {
                                let error = ErrorView::WrongTy {
                                    stmt: node,
                                    returned: ty,
                                    accepted: seq![ret],
                                };
                                lemma_concat_flat(errors, error);
                                lemma_walk_shaped(tree, ret, next, vars, true, errors + flat(error));
                            } else {
                                lemma_walk_shaped(tree, ret, next, vars, true, errors);
                            }
                        },
                        Err(error) => {
                            lemma_concat_flat(errors, error);
                            lemma_walk_shaped(tree, ret, next, vars, true, errors + flat(error));
                        },
                    }
                },
                StmtView::Expr(expr) => {
                    lemma_expr_ty_plain(expr, node, vars, tree.funcs);
                    match expr_ty(expr, node, vars, tree.funcs) {
                        Ok(_) => {
                            lemma_walk_shaped(tree, ret, next, vars, returned, errors);
                        },
                        Err(error) => {},
                    }
                },
            }
        },
    }
}

/// The error of the check of a function has the shape of the error of a
/// check.
pub proof fn lemma_func_check_shaped(tree: TreeView, func: FuncView)
    ensures
        func_check(tree, func) matches Err(error) ==> shaped(error) && flat(error).len() > 0
            && plain(flat(error)),
{
    lemma_walk_shaped(tree, func.ret, func.start, seed(func.args), false, Seq::empty());
}

/// Whether a statement from slot `at` on is a `return`.
pub open spec fn has_return(stmts: Seq<Option<NodeView>>, at: Option<usize>) -> bool
    decreases left(at, stmts.len()),
{
    match at {
        None => false,
        Some(i) => if i >= stmts.len() || stmts[i as int] is None {
            false
        } else {
            let node = stmts[i as int]->Some_0;
            node.stmt is Return || has_return(
                stmts,
                match node.next {
                    Some(next) => if next > i {
                        Some(next)
                    } else {
                        None
                    },
                    None => None,
                },
            )
        },
    }
}

/// The error of the first expression without a type among the statements
/// from slot `at` on that are expressions, with the types `vars` of the
/// variables, if there is one.
pub open spec fn stops(tree: TreeView, at: Option<usize>, vars: Map<Seq<char>, TyView>) -> Option<
    ErrorView,
>
    decreases left(at, tree.stmts.len()),
{
    match at {
        None => None,
        Some(i) => if i >= tree.stmts.len() || tree.stmts[i as int] is None {
            None
        } else {
            let node = tree.stmts[i as int]->Some_0;
            let next = match node.next {
                Some(next) => if next > i {
                    Some(next)
                } else {
                    None
                },
                None => None,
            };
            match node.stmt {
                StmtView::Let(let_) => match expr_ty(let_.value, node, vars, tree.funcs) {
                    Ok(ty) => stops(tree, next, vars.insert(let_.name, ty)),
                    Err(_) => stops(tree, next, vars),
                },
                StmtView::Return(_) => stops(tree, next, vars),
                StmtView::Expr(expr) => match expr_ty(expr, node, vars, tree.funcs) {
                    Ok(_) => stops(tree, next, vars),
                    Err(error) => Some(error),
                },
            }
        },
    }
}

/// Statements without a `return` among them, in a function that returns a
/// value, fail the check: with the error of the first expression statement
/// without a type, if there is one, else with the error for the missing
/// `return`, whatever other errors were found.
pub proof fn lemma_walk_without_return(
    tree: TreeView,
    ret: TyView,
    at: Option<usize>,
    vars: Map<Seq<char>, TyView>,
    errors: ErrorView,
)
    requires
        ret != TyView::Void,
        !has_return(tree.stmts, at),
    ensures
        walk(tree, ret, at, vars, false, errors) == Err::<(), ErrorView>(
            match stops(tree, at, vars) {
                Some(error) => error,
                None => ErrorView::MissingReturn(ret),
            },
        ),
    decreases left(at, tree.stmts.len()),
{
    match at {
        None => {},
        Some(i) => if i >= tree.stmts.len() || tree.stmts[i as int] is None {
        } else {
            let node = tree.stmts[i as int]->Some_0;
            let next = match node.next {
                Some(next) => if next > i {
                    Some(next)
                } else {
                    None
                },
                None => None,
            };
            match node.stmt {
                StmtView::Let(let_) => match expr_ty(let_.value, node, vars, tree.funcs) {
                    Ok(ty) => {
                        lemma_walk_without_return(
                            tree,
                            ret,
                            next,
                            vars.insert(let_.name, ty),
                            errors,
                        );
                    },
                    Err(error) => {
                        lemma_walk_without_return(tree, ret, next, vars, concat(errors, error));
                    },
                },
                StmtView::Return(_) => {},
                StmtView::Expr(expr) => match expr_ty(expr, node, vars, tree.funcs) {
                    Ok(_) => {
                        lemma_walk_without_return(tree, ret, next, vars, errors);
                    },
                    Err(error) => {},
                },
            }
        },
    }
}

/// A function that returns a value and has no `return` among its
/// statements fails the check; it fails with the error for the missing
/// `return` if each of its expression statements has a type. A function
/// that returns nothing and has no statements passes it.
pub proof fn lemma_missing_return(tree: TreeView, func: FuncView)
    ensures
        func.ret != TyView::Void && !has_return(tree.stmts, func.start) ==> func_check(tree, func)
            is Err,
        func.ret != TyView::Void && !has_return(tree.stmts, func.start) && stops(
            tree,
            func.start,
            seed(func.args),
        ) is None ==> func_check(tree, func) == Err::<(), ErrorView>(
            ErrorView::MissingReturn(func.ret),
        ),
        func.ret == TyView::Void && func.start is None ==> func_check(tree, func) is Ok,
{
    if func.ret != TyView::Void && !has_return(tree.stmts, func.start) {
        lemma_walk_without_return(
            tree,
            func.ret,
            func.start,
            seed(func.args),
            ErrorView::Multiple(Seq::empty()),
        );
    }
}

/// Whether the result `r` of a check is what `out` says.
pub open spec fn checked(r: Result<(), Error>, out: Result<(), ErrorView>) -> bool {
    match out {
        Ok(()) => r is Ok,
        Err(error) => r is Err && r->Err_0@ == error,
    }
}

impl<'f> Func<'f> {
    /// Checks the types of the statements of this function.
    pub fn verify(&'f self, tree: &'f Tree<'f>) -> (r: Result<(), Error<'f>>)
        requires
            tree.wf(),
        ensures
            checked(r, func_check(tree@, self@)),
    {
        let ghost whole = func_check(tree@, self@);
        let ghost params = self@.args;
        let mut vars: Table<Ty<'f>> = Table::new();
        let mut a: usize = 0;
        assert(view_map(vars) =~= seed(params.take(0)));
        while a < self.args.len()
            invariant
                a <= self.args@.len(),
                params == views(self.args@),
                vars.wf(),
                view_map(vars) == seed(params.take(a as int)),
            decreases self.args@.len() - a,
        {
            let arg = &self.args[a];
            let ghost before = view_map(vars);
            vars.insert(arg.name.inner(), arg.ty.as_ref());
            proof {
                assert(params.take(a + 1).drop_last() =~= params.take(a as int));
                assert(view_map(vars) =~= before.insert(arg@.name, arg@.ty));
            }
            a += 1;
        }
        assert(params.take(a as int) =~= params);
        let stmts = tree.stmts();
        let mut error = Error::none();
        let mut returned = false;
        let mut next = self.start;
        loop
            invariant
                tree.wf(),
                vars.wf(),
                arena_view(stmts@) == tree@.stmts,
                linked(tree@.stmts),
                whole == func_check(tree@, self@),
                walk(tree@, self@.ret, next, view_map(vars), returned, error@) == whole,
            ensures
                finish(self@.ret, returned, error@) == whole,
            decreases left(next, stmts@.len()),
        {
            let at = match next {
                Some(at) => at,
                None => {
                    break ;
                },
            };
            if at >= stmts.len() {
                break ;
            }
            assert(tree@.stmts[at as int] == match stmts@[at as int] {
                Some(stmt) => Some(stmt@),
                None => None,
            });
            let stmt = match &stmts[at] {
                Some(stmt) => stmt,
                None => {
                    break ;
                },
            };
            let ghost before = view_map(vars);
            match stmt {
                Stmt::Let { let_, next: after } => {
                    match let_.value.ty(stmt, &vars, tree) {
                        Ok(ty) => {
                            vars.insert(let_.name.inner(), ty);
                            assert(view_map(vars) =~= before.insert(let_@.name, ty@));
                        },
                        Err(err) => {
                            error = error.concat(err);
                        },
                    }
                    next = *after;
                },
                Stmt::Return { ret, next: after } => {
                    match ret.0.ty(stmt, &vars, tree) {
                        Ok(ty) => {
                            if !ty.same(&self.ret) {
                                let mut accepted: Vec<Ty<'f>> = Vec::new();
                                accepted.push(self.ret.as_ref());
                                assert(crate::ty::tys_view(accepted@) =~= seq![self@.ret]);
                                error = error.concat(Error::wrong_ty(stmt, ty, accepted));
                            }
                        },
                        Err(err) => {
                            error = error.concat(err);
                        },
                    }
                    returned = true;
                    next = *after;
                },
                Stmt::Expr { expr, next: after } => {
                    match expr.ty(stmt, &vars, tree) {
                        Ok(_) => {},
                        Err(err) => {
                            return Err(err);
                        },
                    }
                    next = *after;
                },
            }
        }
        if !returned && !self.ret.same(&Ty::Void) {
            return Err(Error::missing_ty(self.ret.as_ref()));
        }
        error.collapse()
    }

    /// Puts the statements of `func` at the end of the arena, as a chain,
    /// and returns the function of the tree for it. Each statement is added
    /// at the tail of the chain, which is found by walking the chain from
    /// its first statement.
    pub fn build(func: &'f decl::Func<'f>, stmts: &mut Vec<Option<Stmt<'f>>>) -> (r: Func<'f>)
        requires
            linked(arena_view(old(stmts)@)),
        ensures
            arena_view(final(stmts)@) == arena_view(old(stmts)@) + chain(
                old(stmts)@.len() as int,
                func@.stmts,
            ),
            linked(arena_view(final(stmts)@)),
            r@ == func_at(old(stmts)@.len() as int, func@),
    {
        let ghost before = arena_view(stmts@);
        let ghost base = stmts@.len() as int;
        let ghost all = func@.stmts;
        let mut start: Option<usize> = None;
        let mut k: usize = 0;
        assert(arena_view(stmts@) =~= before + chain(base, all.take(0)));
        while k < func.stmts.len()
            invariant
                k <= func.stmts@.len(),
                all == views(func.stmts@),
                base == before.len(),
                linked(before),
                arena_view(stmts@) == before + chain(base, all.take(k as int)),
                stmts@.len() == base + k,
                start == (if k > 0 {
                    Some(base as usize)
                } else {
                    None::<usize>
                }),
            decreases func.stmts@.len() - k,
        {
            let node = Stmt::from(&func.stmts[k]);
            let ghost now = arena_view(stmts@);
            let at = stmts.len();
            match start {
                Some(first) => {
                    let mut tail = first;
                    loop
                        invariant
                            first <= tail < at,
                            first == base,
                            base == before.len(),
                            k <= all.len(),
                            at == base + k,
                            at == stmts@.len(),
                            0 < k,
                            now == arena_view(stmts@),
                            now == before + chain(base, all.take(k as int)),
                        ensures
                            tail == at - 1,
                            at == stmts@.len(),
                            now == arena_view(stmts@),
                        decreases at - tail,
                    {
                        assert(now[tail as int] == chain(base, all.take(k as int))[tail - base]);
                        assert(now[tail as int] == match stmts@[tail as int] {
                            Some(stmt) => Some(stmt@),
                            None => None,
                        });
                        let next = match &stmts[tail] {
                            Some(stmt) => stmt.next(),
                            None => None,
                        };
                        match next {
                            Some(next) => {
                                tail = next;
                            },
                            None => {
                                break ;
                            },
                        }
                    }
                    proof {
                        assert(now[tail as int] == chain(base, all.take(k as int))[tail - base]);
                        assert(now[tail as int] == match stmts@[tail as int] {
                            Some(stmt) => Some(stmt@),
                            None => None,
                        });
                    }
                    let ghost held = stmts@;
                    stmts.push(None);
                    let taken = stmts.swap_remove(tail);
                    assert(taken == held[tail as int]);
                    assert(stmts@ =~= held.update(tail as int, None));
                    match taken {
                        Some(stmt) => {
                            stmts.set(tail, Some(stmt.with_next(Some(at))));
                        },
                        None => {},
                    }
                    stmts.push(Some(node));
                },
                None => {
                    start = Some(at);
                    stmts.push(Some(node));
                },
            }
            proof {
                assert(k < all.len());
                assert(stmts@.len() == at + 1);
                assert(all.take(k + 1)[k as int] == all[k as int]);
                if k > 0 {
                    assert(now[at - 1] == chain(base, all.take(k as int))[at - 1 - base]);
                }
                let after = arena_view(stmts@);
                let goal = before + chain(base, all.take(k + 1));
                assert(after.len() == goal.len());
                assert forall|i: int| 0 <= i < after.len() implies after[i] == goal[i] by {
                    if i < at - 1 {
                        assert(after[i] == now[i]);
                        if i >= base {
                            assert(now[i] == chain(base, all.take(k as int))[i - base]);
                        }
                    } else if i == at - 1 {
                        if k > 0 {
                            assert(now[i] == chain(base, all.take(k as int))[i - base]);
                        } else {
                            assert(after[i] == now[i]);
                        }
                    }
                }
                assert(after =~= goal);
            }
            k += 1;
        }
        proof {
            assert(stmts@.len() == stmts.len());
            assert(all.take(k as int) =~= all);
            let after = arena_view(stmts@);
            assert(after.len() == base + all.len());
            assert forall|i: int| 0 <= i < after.len() implies (#[trigger] after[i]) is Some && (
            after[i]->Some_0.next matches Some(next) ==> next == i + 1 && i + 1 < after.len()) by {
                if i < base {
                    assert(after[i] == before[i]);
                } else {
                    assert(after[i] == chain(base, all)[i - base]);
                }
            }
        }
        Func {
            name: func.name.as_ref(),
            args: func.args.as_slice(),
            ret: func.ret.as_ref(),
            variadic: func.variadic,
            start,
        }
    }
}

} // verus!

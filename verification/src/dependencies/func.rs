use vstd::prelude::*;

use crate::ast;
use crate::ast::func::left;
use crate::ast::module::put_name;
use crate::ast::stmt::arena_view;
use crate::ast::tree::linked;
use crate::ast::NodeView;
use crate::ast::Tree;
use crate::lexer::Ident;
use crate::names::Table;

use super::error::checked;
use super::error::concat;
use super::error::settle;
use super::error::Error;
use super::error::ErrorView;
use super::graph::deps_view;
use super::graph::Dependency;
use super::stmt::stmt_deps;

verus! {

/// A function of the graph: its name, the name of its module, and what it
/// depends on, each once, in the order in which it first came.
pub struct Func<'f> {
    pub name: Ident<'f>,
    pub module: Ident<'f>,
    pub dependencies: Table<()>,
}

/// What a `Func` stands for.
pub struct FuncView {
    pub name: Seq<char>,
    pub module: Seq<char>,
    pub dependencies: Seq<Seq<char>>,
}

impl<'f> View for Func<'f> {
    type V = FuncView;

    open spec fn view(&self) -> FuncView {
        FuncView { name: self.name@, module: self.module@, dependencies: self.dependencies.names() }
    }
}

/// `names` with all of `more` in it, each added at the end where it was not
/// in it.
pub open spec fn put_all(names: Seq<Seq<char>>, more: Seq<Seq<char>>) -> Seq<Seq<char>>
    decreases more.len(),
{
    if more.len() == 0 {
        names
    } else {
        put_name(put_all(names, more.drop_last()), more.last())
    }
}

/// What the statements from slot `at` on depend on, added to `names`.
pub open spec fn chain_deps(stmts: Seq<Option<NodeView>>, at: Option<usize>, names: Seq<Seq<char>>)
    -> Seq<Seq<char>>
    decreases left(at, stmts.len()),
{
    match at {
        None => names,
        Some(i) => if i >= stmts.len() || stmts[i as int] is None {
            names
        } else {
            let node = stmts[i as int]->Some_0;
            let next = match node.next {
                Some(next) => if next > i {
                    Some(next)
                } else {
                    None
                },
                None => None,
            };
            chain_deps(stmts, next, put_all(names, stmt_deps(node.stmt)))
        },
    }
}

/// The function of the graph for a function of the tree.
pub open spec fn func_of(stmts: Seq<Option<NodeView>>, module: Seq<char>, func: ast::FuncView)
    -> FuncView {
    FuncView {
        name: func.name,
        module,
        dependencies: chain_deps(stmts, func.start, Seq::empty()),
    }
}

/// The errors of a function whose module declares `declared`: one for each
/// of its dependencies from index `k` on that the module does not declare,
/// added to `errors` in this order.
pub open spec fn missing(declared: Seq<Seq<char>>, func: FuncView, k: int, errors: ErrorView)
    -> ErrorView
    decreases func.dependencies.len() - k,
{
    if k < 0 || k >= func.dependencies.len() {
        errors
    } else if declared.contains(func.dependencies[k]) {
        missing(declared, func, k + 1, errors)
    } else {
        missing(
            declared,
            func,
            k + 1,
            concat(
                errors,
                ErrorView::MissingDependency { func: func.name, dependency: func.dependencies[k] },
            ),
        )
    }
}

/// The check of a function whose module declares `declared`: every
/// function that it calls has to be declared by its own module.
pub open spec fn func_check(declared: Seq<Seq<char>>, func: FuncView) -> Result<(), ErrorView> {
    settle(missing(declared, func, 0, ErrorView::Multiple(Seq::empty())))
}

/// The error for each dependency of `func` from index `k` on that
/// `declared` does not hold, in order.
pub open spec fn undeclared(declared: Seq<Seq<char>>, func: FuncView, k: int) -> Seq<ErrorView>
    decreases func.dependencies.len() - k,
{
    if k < 0 || k >= func.dependencies.len() {
        Seq::empty()
    } else if declared.contains(func.dependencies[k]) {
        undeclared(declared, func, k + 1)
    } else {
        seq![
            ErrorView::MissingDependency { func: func.name, dependency: func.dependencies[k] },
        ] + undeclared(declared, func, k + 1)
    }
}

/// The errors of a function are those for its dependencies that its module
/// does not declare, after the errors that were there.
pub proof fn lemma_missing(declared: Seq<Seq<char>>, func: FuncView, k: int, errors: Seq<ErrorView>)
    ensures
        missing(declared, func, k, ErrorView::Multiple(errors)) == ErrorView::Multiple(
            errors + undeclared(declared, func, k),
        ),
    decreases func.dependencies.len() - k,
{
    if k < 0 || k >= func.dependencies.len() {
        assert(errors + undeclared(declared, func, k) =~= errors);
    } else if declared.contains(func.dependencies[k]) {
        lemma_missing(declared, func, k + 1, errors);
    } else {
        let error = ErrorView::MissingDependency {
            func: func.name,
            dependency: func.dependencies[k],
        };
        lemma_missing(declared, func, k + 1, errors.push(error));
        assert(errors.push(error) + undeclared(declared, func, k + 1) =~= errors + undeclared(
            declared,
            func,
            k,
        ));
    }
}

/// The errors for the dependencies from index `k` on: there is one for
/// each dependency that is not declared, and for no other; each names the
/// function and the dependency.
pub proof fn lemma_undeclared(declared: Seq<Seq<char>>, func: FuncView, k: int)
    requires
        0 <= k,
    ensures
        undeclared(declared, func, k).len() == 0 <==> (forall|i: int|
            k <= i < func.dependencies.len() ==> declared.contains(#[trigger] func.dependencies[i])),
        forall|i: int|
            k <= i < func.dependencies.len() && !declared.contains(func.dependencies[i])
                ==> undeclared(declared, func, k).contains(
                ErrorView::MissingDependency {
                    func: func.name,
                    dependency: #[trigger] func.dependencies[i],
                },
            ),
        forall|j: int|
            0 <= j < undeclared(declared, func, k).len() ==> !(#[trigger] undeclared(
                declared,
                func,
                k,
            )[j] is Multiple),
    decreases func.dependencies.len() - k,
{
    if k >= func.dependencies.len() {
    } else {
        lemma_undeclared(declared, func, k + 1);
        let rest = undeclared(declared, func, k + 1);
        let all = undeclared(declared, func, k);
        if declared.contains(func.dependencies[k]) {
        } else {
            let error = ErrorView::MissingDependency {
                func: func.name,
                dependency: func.dependencies[k],
            };
            assert(all[0] == error);
            assert forall|i: int|
                k <= i < func.dependencies.len() && !declared.contains(
                    func.dependencies[i],
                ) implies all.contains(
                ErrorView::MissingDependency {
                    func: func.name,
                    dependency: #[trigger] func.dependencies[i],
                },
            ) by {
                let wanted = ErrorView::MissingDependency {
                    func: func.name,
                    dependency: func.dependencies[i],
                };
                if i > k {
                    let j = choose|j: int| 0 <= j < rest.len() && rest[j] == wanted;
                    assert(all[j + 1] == wanted);
                }
            }
        }
    }
}

/// A function passes the check exactly if its module declares everything
/// that it depends on. A function that depends on one thing alone that its
/// module does not declare fails with the error that names the function and
/// that dependency, whatever else declares it.
pub proof fn lemma_func_check(declared: Seq<Seq<char>>, func: FuncView)
    ensures
        func_check(declared, func) is Ok <==> (forall|i: int|
            0 <= i < func.dependencies.len() ==> declared.contains(#[trigger] func.dependencies[i])),
        func.dependencies.len() == 1 && !declared.contains(func.dependencies[0]) ==> func_check(
            declared,
            func,
        ) == Err::<(), ErrorView>(
            ErrorView::MissingDependency { func: func.name, dependency: func.dependencies[0] },
        ),
        func_check(declared, func) == super::error::collapse(undeclared(declared, func, 0)),
{
    lemma_missing(declared, func, 0, Seq::empty());
    lemma_undeclared(declared, func, 0);
    assert(Seq::<ErrorView>::empty() + undeclared(declared, func, 0) =~= undeclared(
        declared,
        func,
        0,
    ));
    if func.dependencies.len() == 1 && !declared.contains(func.dependencies[0]) {
        assert(undeclared(declared, func, 1) =~= Seq::<ErrorView>::empty());
        assert(undeclared(declared, func, 0) =~= seq![
            ErrorView::MissingDependency { func: func.name, dependency: func.dependencies[0] },
        ]);
    }
}

impl<'f> Func<'f> {
    /// The dependencies are in order.
    pub open spec fn wf(&self) -> bool {
        self.dependencies.wf()
    }

    /// Collects what the function `func` of the module `module` depends on.
    pub fn build(func: &'f ast::Func<'f>, module: Ident<'f>, ast: &'f Tree<'f>) -> (r: Func<'f>)
        requires
            ast.wf(),
        ensures
            r.wf(),
            r@ == func_of(ast@.stmts, module@, func@),
    {
        let stmts = ast.stmts();
        let ghost whole = chain_deps(ast@.stmts, func.start, Seq::empty());
        let mut dependencies: Table<()> = Table::new();
        let mut next = func.start;
        loop
            invariant
                dependencies.wf(),
                arena_view(stmts@) == ast@.stmts,
                linked(ast@.stmts),
                whole == chain_deps(ast@.stmts, func.start, Seq::empty()),
                chain_deps(ast@.stmts, next, dependencies.names()) == whole,
            ensures
                dependencies.wf(),
                dependencies.names() == whole,
            decreases left(next, stmts@.len()),
        {
            let at = match next {
                Some(at) => at,
                None => {
                    break ;
                },
            };
            if at >= stmts.len() {
                break ;
            }
            assert(ast@.stmts[at as int] == match stmts@[at as int] {
                Some(stmt) => Some(stmt@),
                None => None,
            });
            let stmt = match &stmts[at] {
                Some(stmt) => stmt,
                None => {
                    break ;
                },
            };
            let found = stmt.dependencies();
            let ghost all = deps_view(found@);
            let ghost before = dependencies.names();
            let mut k: usize = 0;
            assert(all.take(0) =~= Seq::<Seq<char>>::empty());
            while k < found.len()
                invariant
                    k <= found@.len(),
                    all == deps_view(found@),
                    dependencies.wf(),
                    dependencies.names() == put_all(before, all.take(k as int)),
                decreases found@.len() - k,
            {
                match &found[k] {
                    Dependency::Func(name) => {
                        dependencies.insert(name.inner(), ());
                    },
                }
                proof {
                    assert(all.take(k + 1).drop_last() =~= all.take(k as int));
                }
                k += 1;
            }
            assert(all.take(k as int) =~= all);
            next = stmt.next();
        }
        Func { name: func.name.as_ref(), module, dependencies }
    }

    /// Checks that the module of this function, which declares the
    /// functions `declared`, holds what the function depends on.
    pub fn verify(&'f self, declared: &Table<Func<'f>>) -> (r: Result<(), Error<'f>>)
        requires
            self.wf(),
            declared.wf(),
        ensures
            checked(r, func_check(declared.names(), self@)),
    {
        let ghost whole = missing(declared.names(), self@, 0, ErrorView::Multiple(Seq::empty()));
        let mut error = Error::none();
        let mut k: usize = 0;
        while k < self.dependencies.len()
            invariant
                k <= self@.dependencies.len(),
                self.wf(),
                declared.wf(),
                whole == missing(declared.names(), self@, 0, ErrorView::Multiple(Seq::empty())),
                missing(declared.names(), self@, k as int, error@) == whole,
            decreases self@.dependencies.len() - k,
        {
            let dependency = self.dependencies.name(k);
            if !declared.contains(dependency) {
                error = error.concat(
                    Error::missing_dependency(
                        self.name.as_ref(),
                        Dependency::Func(Ident::Ref(dependency)),
                    ),
                );
            }
            k += 1;
        }
        error.collapse()
    }
}

} // verus!

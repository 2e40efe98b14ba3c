use vstd::prelude::*;

use crate::ast;
use crate::ast::Tree;
use crate::ast::TreeView;
use crate::lexer::Ident;
use crate::names::Table;
use crate::views;

use super::error::checked;
use super::error::collapse;
use super::error::lemma_concat_flat;
use super::error::lemma_flat_collapse;
use super::error::plain;
use super::func::lemma_func_check;
use super::func::lemma_undeclared;
use super::func::undeclared;
use super::error::concat;
use super::error::settle;
use super::error::Error;
use super::error::ErrorView;
use super::func::func_check;
use super::func::func_of;
use super::func::Func;
use super::func::FuncView;

verus! {

/// A module of the graph: its name and its functions by their names.
pub struct Module<'m> {
    pub name: Ident<'m>,
    pub funcs: Table<Func<'m>>,
}

/// What a `Module` stands for: its name, and its functions in order.
pub struct ModuleView {
    pub name: Seq<char>,
    pub funcs: Seq<FuncView>,
}

impl<'m> View for Module<'m> {
    type V = ModuleView;

    open spec fn view(&self) -> ModuleView {
        ModuleView { name: self.name@, funcs: views(self.funcs.values()) }
    }
}

/// The names of the functions of a module, in order.
pub open spec fn func_names(module: ModuleView) -> Seq<Seq<char>> {
    Seq::new(module.funcs.len(), |f: int| module.funcs[f].name)
}

/// The module of the graph for a module of the tree: for each function that
/// it declares, what the function depends on.
pub open spec fn module_of(tree: TreeView, module: ast::ModuleView) -> ModuleView {
    ModuleView {
        name: module.name,
        funcs: Seq::new(
            module.funcs.len(),
            |f: int| func_of(tree.stmts, module.name, tree.funcs[module.funcs[f]]),
        ),
    }
}

/// The errors of the functions of a module from index `f` on, added to
/// `errors` in this order.
pub open spec fn funcs_check(module: ModuleView, f: int, errors: ErrorView) -> ErrorView
    decreases module.funcs.len() - f,
{
    if f < 0 || f >= module.funcs.len() {
        errors
    } else {
        match func_check(func_names(module), module.funcs[f]) {
            Ok(()) => funcs_check(module, f + 1, errors),
            Err(error) => funcs_check(module, f + 1, concat(errors, error)),
        }
    }
}

/// The check of a module: every one of its functions is checked, and the
/// errors of all of them are collected.
pub open spec fn module_check(module: ModuleView) -> Result<(), ErrorView> {
    settle(funcs_check(module, 0, ErrorView::Multiple(Seq::empty())))
}

/// The errors of the functions of a module from index `f` on: for each
/// function, in order, one for each of its dependencies that the module
/// does not declare.
pub open spec fn module_missing(module: ModuleView, f: int) -> Seq<ErrorView>
    decreases module.funcs.len() - f,
{
    if f < 0 || f >= module.funcs.len() {
        Seq::empty()
    } else {
        undeclared(func_names(module), module.funcs[f], 0) + module_missing(module, f + 1)
    }
}

/// The errors of the functions of a module are those of each function, in
/// order, after the errors that were there.
pub proof fn lemma_funcs_check(module: ModuleView, f: int, errors: Seq<ErrorView>)
    requires
        0 <= f,
    ensures
        funcs_check(module, f, ErrorView::Multiple(errors)) == ErrorView::Multiple(
            errors + module_missing(module, f),
        ),
        plain(module_missing(module, f)),
    decreases module.funcs.len() - f,
{
    if f >= module.funcs.len() {
        assert(errors + module_missing(module, f) =~= errors);
    } else {
        let names = func_names(module);
        let own = undeclared(names, module.funcs[f], 0);
        lemma_func_check(names, module.funcs[f]);
        lemma_undeclared(names, module.funcs[f], 0);
        lemma_flat_collapse(own);
        match func_check(names, module.funcs[f]) {
            Ok(()) => {
                assert(own =~= Seq::<ErrorView>::empty());
                lemma_funcs_check(module, f + 1, errors);
                assert(errors + module_missing(module, f) =~= errors + module_missing(
                    module,
                    f + 1,
                ));
            },
            Err(error) => {
                lemma_concat_flat(errors, error);
                lemma_funcs_check(module, f + 1, errors + own);
                assert((errors + own) + module_missing(module, f + 1) =~= errors + module_missing(
                    module,
                    f,
                ));
            },
        }
        assert forall|i: int| 0 <= i < module_missing(module, f).len() implies !(
        #[trigger] module_missing(module, f)[i] is Multiple) by {
            if i < own.len() {
                assert(module_missing(module, f)[i] == own[i]);
            } else {
                assert(module_missing(module, f)[i] == module_missing(module, f + 1)[i - own.len()]);
            }
        }
    }
}

/// The check of a module ends as a check that has collected, for each
/// function, an error for each dependency that the module does not declare.
pub proof fn lemma_module_check(module: ModuleView)
    ensures
        module_check(module) == collapse(module_missing(module, 0)),
        plain(module_missing(module, 0)),
{
    lemma_funcs_check(module, 0, Seq::empty());
    assert(Seq::<ErrorView>::empty() + module_missing(module, 0) =~= module_missing(module, 0));
}

/// The errors of a module hold the error for every dependency of every
/// function from index `f` on that the module does not declare.
pub proof fn lemma_module_missing(module: ModuleView, f: int, at: int, k: int)
    requires
        0 <= f <= at < module.funcs.len(),
        0 <= k < module.funcs[at].dependencies.len(),
        !func_names(module).contains(module.funcs[at].dependencies[k]),
    ensures
        module_missing(module, f).contains(
            ErrorView::MissingDependency {
                func: module.funcs[at].name,
                dependency: module.funcs[at].dependencies[k],
            },
        ),
    decreases at - f,
{
    let wanted = ErrorView::MissingDependency {
        func: module.funcs[at].name,
        dependency: module.funcs[at].dependencies[k],
    };
    let own = undeclared(func_names(module), module.funcs[f], 0);
    if f == at {
        lemma_undeclared(func_names(module), module.funcs[at], 0);
        let j = choose|j: int| 0 <= j < own.len() && own[j] == wanted;
        assert(module_missing(module, f)[j] == wanted);
    } else {
        lemma_module_missing(module, f + 1, at, k);
        let rest = module_missing(module, f + 1);
        let j = choose|j: int| 0 <= j < rest.len() && rest[j] == wanted;
        assert(module_missing(module, f)[own.len() + j] == wanted);
    }
}

impl<'m> Module<'m> {
    /// The tables are in order, and every function stands under its name.
    pub open spec fn wf(&self) -> bool {
        &&& self.funcs.wf()
        &&& forall|f: int|
            0 <= f < self.funcs.values().len() ==> (#[trigger] self.funcs.values()[f]).wf()
                && self.funcs.values()[f].name@ == self.funcs.names()[f]
    }

    /// Collects what the functions of the module `module` of the tree
    /// depend on.
    pub fn build(module: &'m ast::Module<'m>, ast: &'m Tree<'m>) -> (r: Module<'m>)
        requires
            ast.wf(),
            module.funcs.wf(),
            forall|f: int|
                0 <= f < module@.funcs.len() ==> ast@.funcs.contains_key(#[trigger] module@.funcs[f]),
        ensures
            r.wf(),
            r@ == module_of(ast@, module@),
    {
        let ghost names = module@.funcs;
        let ghost whole = module_of(ast@, module@);
        let mut funcs: Table<Func<'m>> = Table::new();
        let mut f: usize = 0;
        proof {
            module.funcs.lemma_distinct();
            ast.lemma_wf();
        }
        while f < module.funcs.len()
            invariant
                f <= names.len(),
                names == module.funcs.names(),
                names.no_duplicates(),
                ast.wf(),
                module.funcs.wf(),
                crate::ast::tree::named(ast@.funcs),
                forall|i: int| 0 <= i < names.len() ==> ast@.funcs.contains_key(#[trigger] names[i]),
                funcs.wf(),
                funcs.values().len() == f,
                funcs.names() == names.take(f as int),
                views(funcs.values()) == whole.funcs.take(f as int),
                forall|i: int| 0 <= i < f ==> (#[trigger] funcs.values()[i]).wf()
                    && funcs.values()[i].name@ == funcs.names()[i],
                whole == module_of(ast@, module@),
            decreases names.len() - f,
        {
            let name = module.funcs.name(f);
            let ghost before = funcs;
            proof {
                if funcs.names().contains(name@) {
                    let i = funcs.names().index_of(name@);
                    assert(names[i] == names.take(f as int)[i]);
                }
                assert(funcs.place(name@) is None);
                assert(ast@.funcs.contains_key(names[f as int]));
            }
            match ast.funcs().get(name) {
                Some(func) => {
                    let made = Func::build(func, module.name.as_ref(), ast);
                    funcs.insert(name, made);
                    proof {
                        assert(func@ == ast@.funcs[name@]);
                        assert(made@ == whole.funcs[f as int]);
                        assert(funcs.values() == before.values().push(made));
                        assert(funcs.names() =~= names.take(f + 1));
                        assert(views(funcs.values()) =~= whole.funcs.take(f + 1));
                    }
                },
                None => {
                    assert(false);
                },
            }
            f += 1;
        }
        proof {
            assert(names.take(f as int) =~= names);
            assert(whole.funcs.take(f as int) =~= whole.funcs);
        }
        Module { name: module.name.as_ref(), funcs }
    }

    /// Checks that the module holds what its functions depend on.
    pub fn verify(&'m self) -> (r: Result<(), Error<'m>>)
        requires
            self.wf(),
        ensures
            checked(r, module_check(self@)),
    {
        let ghost whole = funcs_check(self@, 0, ErrorView::Multiple(Seq::empty()));
        let mut error = Error::none();
        let mut f: usize = 0;
        proof {
            self.funcs.lemma_distinct();
            assert(func_names(self@) =~= self.funcs.names());
        }
        while f < self.funcs.len()
            invariant
                f <= self@.funcs.len(),
                self.wf(),
                func_names(self@) == self.funcs.names(),
                whole == funcs_check(self@, 0, ErrorView::Multiple(Seq::empty())),
                funcs_check(self@, f as int, error@) == whole,
            decreases self@.funcs.len() - f,
        {
            match self.funcs.value(f).verify(&self.funcs) {
                Ok(()) => {},
                Err(err) => {
                    error = error.concat(err);
                },
            }
            f += 1;
        }
        error.collapse()
    }
}

} // verus!

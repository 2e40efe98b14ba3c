use vstd::prelude::*;

use crate::lexer::Ident;
use crate::names::Table;
use crate::parser;
use crate::parser::decl;
use crate::views;

use super::error::collapse;
use super::error::concat;
use super::error::flat;
use super::error::lemma_concat_flat;
use super::error::plain;
use super::func::lemma_func_check_shaped;
use super::error::settle;
use super::error::Error;
use super::error::ErrorView;
use super::func::chain;
use super::func::checked;
use super::func::func_check;
use super::func::func_at;
use super::func::Func;
use super::func::FuncView;
use super::stmt::arena_view;
use super::stmt::NodeView;
use super::stmt::Stmt;
use super::tree::funcs_map;
use super::tree::is_start;
use super::tree::sound;
use super::tree::Tree;
use super::tree::TreeView;

verus! {

/// A module of the tree: its name and the names of the functions that it
/// declares.
pub struct Module<'m> {
    pub name: Ident<'m>,
    pub funcs: Table<()>,
}

/// What a `Module` stands for.
pub struct ModuleView {
    pub name: Seq<char>,
    pub funcs: Seq<Seq<char>>,
}

impl<'m> View for Module<'m> {
    type V = ModuleView;

    open spec fn view(&self) -> ModuleView {
        ModuleView { name: self.name@, funcs: self.funcs.names() }
    }
}

/// What the declarations of a module have made so far: the functions of
/// the tree, the arena, and the names that the module declares.
pub struct Built {
    pub funcs: Map<Seq<char>, FuncView>,
    pub stmts: Seq<Option<NodeView>>,
    pub names: Seq<Seq<char>>,
}

/// `names` with `name` in it: at the end, where it was not in it.
pub open spec fn put_name(names: Seq<Seq<char>>, name: Seq<char>) -> Seq<Seq<char>> {
    if names.contains(name) {
        names
    } else {
        names.push(name)
    }
}

/// One more declaration: its statements go to the end of the arena, and
/// the function stands under its name, in the place of one of that name
/// that was there.
pub open spec fn add_func(built: Built, func: decl::FuncView) -> Built {
    Built {
        funcs: built.funcs.insert(func.name, func_at(built.stmts.len() as int, func)),
        stmts: built.stmts + chain(built.stmts.len() as int, func.stmts),
        names: put_name(built.names, func.name),
    }
}

/// The declarations `funcs`, one after the other.
pub open spec fn add_funcs(built: Built, funcs: Seq<decl::FuncView>) -> Built
    decreases funcs.len(),
{
    if funcs.len() == 0 {
        built
    } else {
        add_func(add_funcs(built, funcs.drop_last()), funcs.last())
    }
}

/// Whether all of `names` are names of `funcs`.
pub open spec fn known(names: Seq<Seq<char>>, funcs: Map<Seq<char>, FuncView>) -> bool {
    forall|i: int| 0 <= i < names.len() ==> funcs.contains_key(#[trigger] names[i])
}

/// One more declaration keeps functions and arena fitting together, keeps
/// the functions that were there, and keeps the declared names known.
pub proof fn lemma_add_func(built: Built, func: decl::FuncView)
    requires
        sound(built.funcs, built.stmts),
        known(built.names, built.funcs),
        built.stmts.len() + func.stmts.len() <= usize::MAX,
    ensures
        sound(add_func(built, func).funcs, add_func(built, func).stmts),
        known(add_func(built, func).names, add_func(built, func).funcs),
        forall|name: Seq<char>|
            built.funcs.contains_key(name) ==> #[trigger] add_func(built, func).funcs.contains_key(
                name,
            ),
{
    let after = add_func(built, func);
    let base = built.stmts.len() as int;
    assert forall|i: int| 0 <= i < after.stmts.len() implies (#[trigger] after.stmts[i]) is Some && (
    after.stmts[i]->Some_0.next matches Some(next) ==> next == i + 1 && i + 1
        < after.stmts.len()) by {
        if i < base {
            assert(after.stmts[i] == built.stmts[i]);
        } else {
            assert(after.stmts[i] == chain(base, func.stmts)[i - base]);
        }
    }
    assert forall|name: Seq<char>| #[trigger]
        after.funcs.contains_key(name) && after.funcs[name].start is Some implies is_start(
        after.stmts,
        after.funcs[name].start->Some_0 as int,
    ) by {
        if name == func.name {
            if base > 0 {
                assert(after.stmts[base - 1] == built.stmts[base - 1]);
            }
        } else {
            let start = built.funcs[name].start->Some_0 as int;
            assert(is_start(built.stmts, start));
            if start > 0 {
                assert(after.stmts[start - 1] == built.stmts[start - 1]);
            }
        }
    }
    assert forall|a: Seq<char>, b: Seq<char>|
        after.funcs.contains_key(a) && after.funcs.contains_key(b) && a != b
            && after.funcs[a].start is Some implies #[trigger] after.funcs[a].start
        != #[trigger] after.funcs[b].start by {
        if a == func.name {
            if after.funcs[b].start is Some {
                assert(is_start(built.stmts, built.funcs[b].start->Some_0 as int));
            }
        } else if b == func.name {
            assert(is_start(built.stmts, built.funcs[a].start->Some_0 as int));
        }
    }
    assert forall|i: int| 0 <= i < after.names.len() implies after.funcs.contains_key(
        #[trigger] after.names[i],
    ) by {
        if i < built.names.len() {
            assert(after.names[i] == built.names[i]);
        }
    }
}

/// The errors of the functions `names` from index `k` on, added to
/// `errors` in this order. A name that is no function of the tree adds
/// nothing.
pub open spec fn funcs_check(tree: TreeView, names: Seq<Seq<char>>, k: int, errors: ErrorView)
    -> ErrorView
    decreases names.len() - k,
{
    if k < 0 || k >= names.len() {
        errors
    } else if !tree.funcs.contains_key(names[k]) {
        funcs_check(tree, names, k + 1, errors)
    } else {
        match func_check(tree, tree.funcs[names[k]]) {
            Ok(()) => funcs_check(tree, names, k + 1, errors),
            Err(error) => funcs_check(tree, names, k + 1, concat(errors, error)),
        }
    }
}

/// The check of a module: every function that it declares is checked, and
/// the errors of all of them are collected.
pub open spec fn module_check(tree: TreeView, module: ModuleView) -> Result<(), ErrorView> {
    settle(funcs_check(tree, module.funcs, 0, ErrorView::Multiple(Seq::empty())))
}

/// The errors of the functions `names` from index `k` on: those that the
/// error of each function that fails stands for, in order.
pub open spec fn module_errors(tree: TreeView, names: Seq<Seq<char>>, k: int) -> Seq<ErrorView>
    decreases names.len() - k,
{
    if k < 0 || k >= names.len() {
        Seq::empty()
    } else if !tree.funcs.contains_key(names[k]) {
        module_errors(tree, names, k + 1)
    } else {
        match func_check(tree, tree.funcs[names[k]]) {
            Ok(()) => module_errors(tree, names, k + 1),
            Err(error) => flat(error) + module_errors(tree, names, k + 1),
        }
    }
}

/// The errors of the functions of a module are those of each function that
/// fails, in order, after the errors that were there; there are none
/// exactly if every function passes.
pub proof fn lemma_funcs_check(tree: TreeView, names: Seq<Seq<char>>, k: int, errors: Seq<ErrorView>)
    requires
        0 <= k,
    ensures
        funcs_check(tree, names, k, ErrorView::Multiple(errors)) == ErrorView::Multiple(
            errors + module_errors(tree, names, k),
        ),
        plain(module_errors(tree, names, k)),
        module_errors(tree, names, k).len() == 0 <==> (forall|i: int|
            k <= i < names.len() && tree.funcs.contains_key(#[trigger] names[i]) ==> func_check(
                tree,
                tree.funcs[names[i]],
            ) is Ok),
    decreases names.len() - k,
{
    let all = module_errors(tree, names, k);
    if k >= names.len() {
        assert(errors + all =~= errors);
    } else if !tree.funcs.contains_key(names[k]) {
        lemma_funcs_check(tree, names, k + 1, errors);
    } else {
        let rest = module_errors(tree, names, k + 1);
        lemma_func_check_shaped(tree, tree.funcs[names[k]]);
        match func_check(tree, tree.funcs[names[k]]) {
            Ok(()) => {
                lemma_funcs_check(tree, names, k + 1, errors);
            },
            Err(error) => {
                lemma_concat_flat(errors, error);
                lemma_funcs_check(tree, names, k + 1, errors + flat(error));
                assert((errors + flat(error)) + rest =~= errors + all);
                assert forall|i: int| 0 <= i < all.len() implies !(#[trigger] all[i] is Multiple) by {
                    if i < flat(error).len() {
                        assert(all[i] == flat(error)[i]);
                    } else {
                        assert(all[i] == rest[i - flat(error).len()]);
                    }
                }
            },
        }
    }
}

/// The check of a module ends as a check that has collected the errors of
/// each of its functions that fails: it passes exactly if every function
/// that it declares passes.
pub proof fn lemma_module_check(tree: TreeView, module: ModuleView)
    ensures
        module_check(tree, module) == collapse(module_errors(tree, module.funcs, 0)),
        plain(module_errors(tree, module.funcs, 0)),
        module_check(tree, module) is Ok <==> (forall|i: int|
            0 <= i < module.funcs.len() && tree.funcs.contains_key(#[trigger] module.funcs[i])
                ==> func_check(tree, tree.funcs[module.funcs[i]]) is Ok),
{
    lemma_funcs_check(tree, module.funcs, 0, Seq::empty());
    assert(Seq::<ErrorView>::empty() + module_errors(tree, module.funcs, 0) =~= module_errors(
        tree,
        module.funcs,
        0,
    ));
}

impl<'m> Module<'m> {
    /// Checks the types in the functions that this module declares.
    pub fn verify(&'m self, tree: &'m Tree<'m>) -> (r: Result<(), Error<'m>>)
        requires
            tree.wf(),
            self.funcs.wf(),
        ensures
            checked(r, module_check(tree@, self@)),
    {
        let ghost names = self@.funcs;
        let ghost whole = funcs_check(tree@, names, 0, ErrorView::Multiple(Seq::empty()));
        let mut error = Error::none();
        let mut k: usize = 0;
        while k < self.funcs.len()
            invariant
                k <= names.len(),
                names == self.funcs.names(),
                tree.wf(),
                self.funcs.wf(),
                whole == funcs_check(tree@, names, 0, ErrorView::Multiple(Seq::empty())),
                funcs_check(tree@, names, k as int, error@) == whole,
            decreases names.len() - k,
        {
            match tree.funcs().get(self.funcs.name(k)) {
                Some(func) => {
                    match func.verify(tree) {
                        Ok(()) => {},
                        Err(err) => {
                            error = error.concat(err);
                        },
                    }
                },
                None => {},
            }
            k += 1;
        }
        error.collapse()
    }

    /// Puts the functions of `module` into `funcs` and their statements into
    /// the arena, and returns the module of the tree for it.
    pub fn build(
        module: &'m parser::Module<'m>,
        funcs: &mut Table<Func<'m>>,
        stmts: &mut Vec<Option<Stmt<'m>>>,
    ) -> (r: Module<'m>)
        requires
            old(funcs).wf(),
            sound(funcs_map(*old(funcs)), arena_view(old(stmts)@)),
        ensures
            final(funcs).wf(),
            r.funcs.wf(),
            sound(funcs_map(*final(funcs)), arena_view(final(stmts)@)),
            known(r@.funcs, funcs_map(*final(funcs))),
            forall|name: Seq<char>|
                funcs_map(*old(funcs)).contains_key(name) ==> #[trigger] funcs_map(
                    *final(funcs),
                ).contains_key(name),
            ({
                let built = add_funcs(
                    Built {
                        funcs: funcs_map(*old(funcs)),
                        stmts: arena_view(old(stmts)@),
                        names: Seq::empty(),
                    },
                    module@.funcs,
                );
                &&& funcs_map(*final(funcs)) == built.funcs
                &&& arena_view(final(stmts)@) == built.stmts
                &&& r@ == (ModuleView { name: module@.name, funcs: built.names })
            }),
    {
        let ghost first = Built {
            funcs: funcs_map(*funcs),
            stmts: arena_view(stmts@),
            names: Seq::empty(),
        };
        let ghost all = module@.funcs;
        let mut names: Table<()> = Table::new();
        let mut k: usize = 0;
        assert(all.take(0) =~= Seq::<decl::FuncView>::empty());
        while k < module.funcs.len()
            invariant
                k <= module.funcs@.len(),
                all == views(module.funcs@),
                funcs.wf(),
                names.wf(),
                sound(funcs_map(*funcs), arena_view(stmts@)),
                known(names.names(), funcs_map(*funcs)),
                forall|name: Seq<char>|
                    first.funcs.contains_key(name) ==> #[trigger] funcs_map(*funcs).contains_key(
                        name,
                    ),
                add_funcs(first, all.take(k as int)) == (Built {
                    funcs: funcs_map(*funcs),
                    stmts: arena_view(stmts@),
                    names: names.names(),
                }),
            decreases module.funcs@.len() - k,
        {
            let decl = &module.funcs[k];
            let ghost before = Built {
                funcs: funcs_map(*funcs),
                stmts: arena_view(stmts@),
                names: names.names(),
            };
            let func = Func::build(decl, stmts);
            names.insert(decl.name.inner(), ());
            funcs.insert(decl.name.inner(), func);
            proof {
                assert(all.take(k + 1).drop_last() =~= all.take(k as int));
                assert(all.take(k + 1).last() == decl@);
                assert(funcs_map(*funcs) =~= before.funcs.insert(decl@.name, func@));
                assert(stmts@.len() == stmts.len());
                assert(arena_view(stmts@).len() == before.stmts.len() + chain(
                    before.stmts.len() as int,
                    decl@.stmts,
                ).len());
                lemma_add_func(before, decl@);
            }
            k += 1;
        }
        assert(all.take(k as int) =~= all);
        Module { name: module.name.as_ref(), funcs: names }
    }
}

} // verus!

use vstd::prelude::*;

use crate::names::view_map;
use crate::names::Table;
use crate::parser;
use crate::views;

use super::module::add_funcs;
use super::module::put_name;
use super::module::module_check;
use super::module::Built;

use super::error::collapse;
use super::error::concat;
use super::error::lemma_concat_flat;
use super::error::lemma_flat_collapse;
use super::error::plain;
use super::func::func_check;
use super::module::lemma_module_check;
use super::module::module_errors;
use super::error::settle;
use super::error::Error;
use super::error::ErrorView;
use super::func::checked;
use super::func::Func;
use super::func::FuncView;
use super::module::Module;
use super::module::ModuleView;
use super::stmt::arena_view;
use super::stmt::NodeView;
use super::stmt::Stmt;

verus! {

/// The flattened program: the modules by name, the functions of all
/// modules by name, and the arena that holds the statements of all
/// functions, each linked to the next one of its function by its place.
pub struct Tree<'t> {
    pub(super) modules: Table<Module<'t>>,
    pub(super) funcs: Table<Func<'t>>,
    pub(super) stmts: Vec<Option<Stmt<'t>>>,
}

/// What a `Tree` stands for.
pub struct TreeView {
    /// The modules, in the order of the table.
    pub modules: Seq<ModuleView>,
    /// The functions by their names.
    pub funcs: Map<Seq<char>, FuncView>,
    pub stmts: Seq<Option<NodeView>>,
}

/// Whether the links of an arena are in order: every slot is filled, and a
/// statement that has a next one has it in the slot after its own.
pub open spec fn linked(stmts: Seq<Option<NodeView>>) -> bool {
    forall|i: int|
        0 <= i < stmts.len() ==> (#[trigger] stmts[i]) is Some && (stmts[i]->Some_0.next matches Some(
            next,
        ) ==> next == i + 1 && i + 1 < stmts.len())
}

/// Whether a chain of statements can start in slot `start`: the slot
/// exists, and the statement before it, if there is one, has no next one.
pub open spec fn is_start(stmts: Seq<Option<NodeView>>, start: int) -> bool {
    &&& 0 <= start < stmts.len()
    &&& start > 0 ==> stmts[start - 1] is Some && stmts[start - 1]->Some_0.next is None
}

/// Whether the first statements of the functions can start chains, and
/// those of two functions are two statements.
pub open spec fn starts_apart(funcs: Map<Seq<char>, FuncView>, stmts: Seq<Option<NodeView>>)
    -> bool {
    &&& forall|name: Seq<char>| #[trigger]
        funcs.contains_key(name) && funcs[name].start is Some ==> is_start(
            stmts,
            funcs[name].start->Some_0 as int,
        )
    &&& forall|a: Seq<char>, b: Seq<char>|
        funcs.contains_key(a) && funcs.contains_key(b) && a != b && funcs[a].start is Some
            ==> #[trigger] funcs[a].start != #[trigger] funcs[b].start
}

/// Whether every function that a module declares is one of `funcs`.
pub open spec fn declared(modules: Seq<ModuleView>, funcs: Map<Seq<char>, FuncView>) -> bool {
    forall|m: int, f: int|
        0 <= m < modules.len() && 0 <= f < modules[m].funcs.len() ==> funcs.contains_key(
            #[trigger] modules[m].funcs[f],
        )
}

/// Whether every function stands under its own name.
pub open spec fn named(funcs: Map<Seq<char>, FuncView>) -> bool {
    forall|name: Seq<char>| #[trigger] funcs.contains_key(name) ==> funcs[name].name == name
}

/// Whether functions and an arena fit together: the statements are linked
/// in order, the functions start apart, and each stands under its name.
pub open spec fn sound(funcs: Map<Seq<char>, FuncView>, stmts: Seq<Option<NodeView>>) -> bool {
    &&& stmts.len() <= usize::MAX
    &&& linked(stmts)
    &&& starts_apart(funcs, stmts)
    &&& named(funcs)
}

/// The slot of the last statement of the chain that goes through slot `at`.
pub open spec fn chain_end(stmts: Seq<Option<NodeView>>, at: int) -> int
    decreases stmts.len() - at,
{
    if 0 <= at && at + 1 < stmts.len() && stmts[at] is Some && stmts[at]->Some_0.next == Some(
        (at + 1) as usize,
    ) {
        chain_end(stmts, at + 1)
    } else {
        at
    }
}

/// Whether slot `i` holds a statement of the chain that starts in slot
/// `start`.
pub open spec fn in_chain(stmts: Seq<Option<NodeView>>, start: int, i: int) -> bool {
    start <= i <= chain_end(stmts, start)
}

/// A chain ends before a slot whose statement is not the next one of the
/// statement before it.
pub proof fn lemma_chain_end(stmts: Seq<Option<NodeView>>, at: int, stop: int)
    requires
        0 <= at < stop <= stmts.len(),
        stmts[stop - 1] is Some,
        stmts[stop - 1]->Some_0.next is None,
    ensures
        chain_end(stmts, at) < stop,
    decreases stop - at,
{
    if at + 1 < stmts.len() && stmts[at] is Some && stmts[at]->Some_0.next == Some(
        (at + 1) as usize,
    ) {
        lemma_chain_end(stmts, at + 1, stop);
    }
}

/// The chains of two functions share no statement.
pub proof fn lemma_chains_apart(
    funcs: Map<Seq<char>, FuncView>,
    stmts: Seq<Option<NodeView>>,
    a: Seq<char>,
    b: Seq<char>,
    i: int,
)
    requires
        sound(funcs, stmts),
        funcs.contains_key(a),
        funcs.contains_key(b),
        a != b,
        funcs[a].start is Some,
        funcs[b].start is Some,
    ensures
        !(in_chain(stmts, funcs[a].start->Some_0 as int, i) && in_chain(
            stmts,
            funcs[b].start->Some_0 as int,
            i,
        )),
{
    let first = funcs[a].start->Some_0 as int;
    let second = funcs[b].start->Some_0 as int;
    assert(is_start(stmts, first));
    assert(is_start(stmts, second));
    assert(funcs[a].start != funcs[b].start);
    if first < second {
        lemma_chain_end(stmts, first, second);
    } else {
        lemma_chain_end(stmts, second, first);
    }
}

/// The functions of a table by their names.
pub open spec fn funcs_map(funcs: Table<Func>) -> Map<Seq<char>, FuncView> {
    view_map(funcs)
}

/// The names of modules, in order.
pub open spec fn module_names(modules: Seq<ModuleView>) -> Seq<Seq<char>> {
    Seq::new(modules.len(), |i: int| modules[i].name)
}

/// `modules` with `module` in it: in the place of the module of its name,
/// or at the end, where there was none.
pub open spec fn put_module(modules: Seq<ModuleView>, module: ModuleView) -> Seq<ModuleView> {
    let names = module_names(modules);
    if names.contains(module.name) {
        modules.update(names.index_of(module.name), module)
    } else {
        modules.push(module)
    }
}

/// One more module: its functions and their statements are added to those
/// of the tree, and the module holds the names that it declares, each once,
/// in the order in which they first come.
pub open spec fn add_module(tree: TreeView, module: parser::ModuleView) -> TreeView {
    let built = add_funcs(
        Built { funcs: tree.funcs, stmts: tree.stmts, names: Seq::empty() },
        module.funcs,
    );
    TreeView {
        modules: put_module(tree.modules, ModuleView { name: module.name, funcs: built.names }),
        funcs: built.funcs,
        stmts: built.stmts,
    }
}

/// The tree of the modules `modules`, added one after the other to a tree
/// that holds nothing. A function stands in the tree under its name alone:
/// one declared later takes the place of one of the same name, whose
/// statements stay in the arena.
pub open spec fn built(modules: Seq<parser::ModuleView>) -> TreeView
    decreases modules.len(),
{
    if modules.len() == 0 {
        TreeView { modules: Seq::empty(), funcs: Map::empty(), stmts: Seq::empty() }
    } else {
        add_module(built(modules.drop_last()), modules.last())
    }
}

/// The errors of the modules from index `m` on, added to `errors` in this
/// order.
pub open spec fn modules_check(tree: TreeView, m: int, errors: ErrorView) -> ErrorView
    decreases tree.modules.len() - m,
{
    if m < 0 || m >= tree.modules.len() {
        errors
    } else {
        match module_check(tree, tree.modules[m]) {
            Ok(()) => modules_check(tree, m + 1, errors),
            Err(error) => modules_check(tree, m + 1, concat(errors, error)),
        }
    }
}

/// The check of a tree: every module is checked, and the errors of all of
/// them are collected.
pub open spec fn tree_check(tree: TreeView) -> Result<(), ErrorView> {
    settle(modules_check(tree, 0, ErrorView::Multiple(Seq::empty())))
}

/// `names` without `name`: the last name moves into its place.
pub open spec fn take_name(names: Seq<Seq<char>>, name: Seq<char>) -> Seq<Seq<char>> {
    if names.contains(name) {
        names.update(names.index_of(name), names.last()).drop_last()
    } else {
        names
    }
}

/// The tree with the function `func` declared in every module, in the
/// place of a function of its name.
pub open spec fn declared_in(tree: TreeView, func: FuncView) -> TreeView {
    TreeView {
        modules: Seq::new(
            tree.modules.len(),
            |m: int|
                ModuleView {
                    name: tree.modules[m].name,
                    funcs: put_name(tree.modules[m].funcs, func.name),
                },
        ),
        funcs: tree.funcs.insert(func.name, func),
        stmts: tree.stmts,
    }
}

/// The tree without the function `name`, which no module declares any
/// more. Its statements stay in the arena.
pub open spec fn removed_from(tree: TreeView, name: Seq<char>) -> TreeView {
    TreeView {
        modules: Seq::new(
            tree.modules.len(),
            |m: int|
                ModuleView {
                    name: tree.modules[m].name,
                    funcs: take_name(tree.modules[m].funcs, name),
                },
        ),
        funcs: tree.funcs.remove(name),
        stmts: tree.stmts,
    }
}

/// The errors of the modules from index `m` on: those of each module, in
/// order.
pub open spec fn tree_errors(tree: TreeView, m: int) -> Seq<ErrorView>
    decreases tree.modules.len() - m,
{
    if m < 0 || m >= tree.modules.len() {
        Seq::empty()
    } else {
        module_errors(tree, tree.modules[m].funcs, 0) + tree_errors(tree, m + 1)
    }
}

/// The errors of the modules of a tree are those of each module, in order,
/// after the errors that were there; there are none exactly if every
/// function of every module passes.
pub proof fn lemma_modules_check(tree: TreeView, m: int, errors: Seq<ErrorView>)
    requires
        0 <= m,
    ensures
        modules_check(tree, m, ErrorView::Multiple(errors)) == ErrorView::Multiple(
            errors + tree_errors(tree, m),
        ),
        plain(tree_errors(tree, m)),
        tree_errors(tree, m).len() == 0 <==> (forall|i: int|
            m <= i < tree.modules.len() ==> #[trigger] module_check(tree, tree.modules[i]) is Ok),
    decreases tree.modules.len() - m,
{
    let all = tree_errors(tree, m);
    if m >= tree.modules.len() {
        assert(errors + all =~= errors);
    } else {
        let own = module_errors(tree, tree.modules[m].funcs, 0);
        let rest = tree_errors(tree, m + 1);
        lemma_module_check(tree, tree.modules[m]);
        lemma_flat_collapse(own);
        match module_check(tree, tree.modules[m]) {
            Ok(()) => {
                assert(own =~= Seq::<ErrorView>::empty());
                lemma_modules_check(tree, m + 1, errors);
                assert(errors + all =~= errors + rest);
            },
            Err(error) => {
                lemma_concat_flat(errors, error);
                lemma_modules_check(tree, m + 1, errors + own);
                assert((errors + own) + rest =~= errors + all);
            },
        }
        assert forall|i: int| 0 <= i < all.len() implies !(#[trigger] all[i] is Multiple) by {
            if i < own.len() {
                assert(all[i] == own[i]);
            } else {
                assert(all[i] == rest[i - own.len()]);
            }
        }
    }
}

/// The check of a tree ends as a check that has collected the errors of
/// each function of each module that fails: every function is checked,
/// whatever the others do, and the tree passes exactly if every function
/// that a module declares passes.
pub proof fn lemma_tree_check(tree: TreeView)
    ensures
        tree_check(tree) == collapse(tree_errors(tree, 0)),
        plain(tree_errors(tree, 0)),
        tree_check(tree) is Ok <==> (forall|m: int, f: int|
            0 <= m < tree.modules.len() && 0 <= f < tree.modules[m].funcs.len()
                && tree.funcs.contains_key(#[trigger] tree.modules[m].funcs[f]) ==> func_check(
                tree,
                tree.funcs[tree.modules[m].funcs[f]],
            ) is Ok),
{
    lemma_modules_check(tree, 0, Seq::empty());
    assert(Seq::<ErrorView>::empty() + tree_errors(tree, 0) =~= tree_errors(tree, 0));
    let every = forall|m: int, f: int|
        0 <= m < tree.modules.len() && 0 <= f < tree.modules[m].funcs.len()
            && tree.funcs.contains_key(#[trigger] tree.modules[m].funcs[f]) ==> func_check(
            tree,
            tree.funcs[tree.modules[m].funcs[f]],
        ) is Ok;
    if tree_check(tree) is Ok {
        assert forall|m: int, f: int|
            0 <= m < tree.modules.len() && 0 <= f < tree.modules[m].funcs.len()
                && tree.funcs.contains_key(#[trigger] tree.modules[m].funcs[f]) implies func_check(
            tree,
            tree.funcs[tree.modules[m].funcs[f]],
        ) is Ok by {
            assert(module_check(tree, tree.modules[m]) is Ok);
            lemma_module_check(tree, tree.modules[m]);
        }
    }
    if every {
        assert forall|m: int| 0 <= m < tree.modules.len() implies #[trigger] module_check(
            tree,
            tree.modules[m],
        ) is Ok by {
            lemma_module_check(tree, tree.modules[m]);
            assert forall|f: int|
                0 <= f < tree.modules[m].funcs.len() && tree.funcs.contains_key(
                    #[trigger] tree.modules[m].funcs[f],
                ) implies func_check(tree, tree.funcs[tree.modules[m].funcs[f]]) is Ok by {}
        }
    }
}

impl<'t> View for Tree<'t> {
    type V = TreeView;

    closed spec fn view(&self) -> TreeView {
        TreeView {
            modules: views(self.modules.values()),
            funcs: funcs_map(self.funcs),
            stmts: arena_view(self.stmts@),
        }
    }
}

impl<'t> Tree<'t> {
    /// The tables are in order, the statements are linked in order, the
    /// functions start apart, and the modules declare functions of the tree.
    pub closed spec fn wf(&self) -> bool {
        &&& self.modules.wf()
        &&& self.funcs.wf()
        &&& forall|m: int|
            0 <= m < self.modules.values().len() ==> (#[trigger] self.modules.values()[m]).funcs.wf()
        &&& forall|m: int|
            0 <= m < self.modules.values().len() ==> (#[trigger] self.modules.values()[m]).name@
                == self.modules.names()[m]
        &&& sound(self@.funcs, self@.stmts)
        &&& declared(self@.modules, self@.funcs)
    }

    /// What holds of every tree: functions and arena fit together, every
    /// function that a module declares is a function of the tree, and no
    /// two modules have one name.
    pub proof fn lemma_wf(&self)
        requires
            self.wf(),
        ensures
            sound(self@.funcs, self@.stmts),
            declared(self@.modules, self@.funcs),
            module_names(self@.modules).no_duplicates(),
    {
        self.modules.lemma_distinct();
        assert(module_names(self@.modules) =~= self.modules.names());
    }

    /// Builds the tree of `modules`.
    pub fn build(modules: &[&'t parser::Module<'t>]) -> (tree: Tree<'t>)
        ensures
            tree.wf(),
            tree@ == built(views(modules@)),
    {
        let ghost all = views(modules@);
        let mut tree = Tree { modules: Table::new(), funcs: Table::new(), stmts: Vec::new() };
        let mut k: usize = 0;
        proof {
            assert(all.take(0) =~= Seq::<parser::ModuleView>::empty());
            assert(tree@.modules =~= Seq::<ModuleView>::empty());
            assert(tree@.funcs =~= Map::<Seq<char>, FuncView>::empty());
            assert(tree@.stmts =~= Seq::<Option<NodeView>>::empty());
        }
        while k < modules.len()
            invariant
                k <= modules@.len(),
                all == views(modules@),
                tree.wf(),
                tree@ == built(all.take(k as int)),
            decreases modules@.len() - k,
        {
            let module = modules[k];
            let ghost before = tree@;
            let ghost held = tree.modules;
            let made = Module::build(module, &mut tree.funcs, &mut tree.stmts);
            let ghost added = made@;
            tree.modules.insert(module.name.inner(), made);
            proof {
                held.lemma_distinct();
                tree.modules.lemma_distinct();
                assert(all.take(k + 1).drop_last() =~= all.take(k as int));
                assert(all.take(k + 1).last() == module@);
                assert(module_names(before.modules) =~= held.names());
                assert(tree@.modules =~= put_module(before.modules, added));
                assert forall|m: int, f: int|
                    0 <= m < tree@.modules.len() && 0 <= f < tree@.modules[m].funcs.len()
                        implies tree@.funcs.contains_key(#[trigger] tree@.modules[m].funcs[f]) by {
                    if tree@.modules[m] != added {
                        assert(tree@.modules[m] == before.modules[m]);
                        assert(before.funcs.contains_key(before.modules[m].funcs[f]));
                    }
                }
            }
            k += 1;
        }
        assert(all.take(k as int) =~= all);
        tree
    }

    /// Declares in every module a function that has no statements, such as
    /// one that is linked in from outside, so that calls of it pass the
    /// checks.
    pub fn declare(&mut self, func: Func<'t>)
        requires
            old(self).wf(),
            func.start is None,
        ensures
            final(self).wf(),
            final(self)@ == declared_in(old(self)@, func@),
    {
        let ghost before = self@;
        let ghost held = self.modules;
        let ghost added = func@;
        let name = func.name.duplicate();
        let n = self.modules.len();
        let mut m: usize = 0;
        while m < n
            invariant
                m <= n,
                n == held.values().len(),
                added == func@,
                name@ == added.name,
                self.modules.wf(),
                self.modules.names() == held.names(),
                self.modules.values().len() == n,
                self.funcs == old(self).funcs,
                self.stmts == old(self).stmts,
                forall|i: int|
                    0 <= i < n ==> (#[trigger] self.modules.values()[i]).funcs.wf()
                        && self.modules.values()[i].name == held.values()[i].name,
                forall|i: int|
                    0 <= i < m ==> (#[trigger] self.modules.values()[i]).funcs.names() == put_name(
                        held.values()[i].funcs.names(),
                        added.name,
                    ),
                forall|i: int|
                    m <= i < n ==> (#[trigger] self.modules.values()[i]).funcs.names()
                        == held.values()[i].funcs.names(),
            decreases n - m,
        {
            let module = self.modules.value_mut(m);
            module.funcs.insert(name.inner(), ());
            m += 1;
        }
        self.funcs.insert(name.inner(), func);
        proof {
            assert(self@.modules =~= declared_in(before, added).modules);
            assert(self@.funcs =~= before.funcs.insert(added.name, added));
            assert forall|name: Seq<char>| #[trigger]
                self@.funcs.contains_key(name) && self@.funcs[name].start is Some implies is_start(
                self@.stmts,
                self@.funcs[name].start->Some_0 as int,
            ) by {
                assert(before.funcs.contains_key(name));
            }
            assert forall|i: int, f: int|
                0 <= i < self@.modules.len() && 0 <= f < self@.modules[i].funcs.len()
                    implies self@.funcs.contains_key(#[trigger] self@.modules[i].funcs[f]) by {
                if f < before.modules[i].funcs.len() {
                    assert(self@.modules[i].funcs[f] == before.modules[i].funcs[f]);
                    assert(before.funcs.contains_key(before.modules[i].funcs[f]));
                }
            }
        }
    }

    /// Takes the function `name` out of the tree and out of every module.
    pub fn remove(&mut self, name: &str)
        requires
            old(self).wf(),
        ensures
            final(self).wf(),
            final(self)@ == removed_from(old(self)@, name@),
    {
        let ghost before = self@;
        let ghost held = self.modules;
        let n = self.modules.len();
        let mut m: usize = 0;
        while m < n
            invariant
                m <= n,
                n == held.values().len(),
                self.modules.wf(),
                self.modules.names() == held.names(),
                self.modules.values().len() == n,
                self.funcs == old(self).funcs,
                self.stmts == old(self).stmts,
                forall|i: int|
                    0 <= i < n ==> (#[trigger] held.values()[i]).funcs.wf(),
                forall|i: int|
                    0 <= i < n ==> (#[trigger] self.modules.values()[i]).funcs.wf()
                        && self.modules.values()[i].name == held.values()[i].name,
                forall|i: int|
                    0 <= i < m ==> (#[trigger] self.modules.values()[i]).funcs.names() == take_name(
                        held.values()[i].funcs.names(),
                        name@,
                    ) && !self.modules.values()[i].funcs.names().contains(name@),
                forall|i: int|
                    m <= i < n ==> (#[trigger] self.modules.values()[i]).funcs.names()
                        == held.values()[i].funcs.names(),
            decreases n - m,
        {
            let module = self.modules.value_mut(m);
            let ghost names = module.funcs;
            let _ = module.funcs.remove(name);
            proof {
                assert(module.funcs.map() == names.map().remove(name@));
                assert(!module.funcs.map().contains_key(name@));
            }
            m += 1;
        }
        let _ = self.funcs.remove(name);
        proof {
            assert(self@.modules =~= removed_from(before, name@).modules);
            assert(self@.funcs =~= before.funcs.remove(name@));
            assert forall|i: int, f: int|
                0 <= i < self@.modules.len() && 0 <= f < self@.modules[i].funcs.len()
                    implies self@.funcs.contains_key(#[trigger] self@.modules[i].funcs[f]) by {
                let kept = self@.modules[i].funcs;
                let all = before.modules[i].funcs;
                assert(kept == take_name(all, name@));
                assert(kept.contains(kept[f]));
                if all.contains(name@) {
                    if f == all.index_of(name@) {
                        assert(kept[f] == all.last());
                        assert(before.funcs.contains_key(all[all.len() - 1]));
                    } else {
                        assert(kept[f] == all[f]);
                        assert(before.funcs.contains_key(all[f]));
                    }
                } else {
                    assert(before.funcs.contains_key(all[f]));
                }
            }
        }
    }

    /// Checks the types in all functions of all modules.
    pub fn verify<'e>(&'e self) -> (r: Result<(), Error<'e>>)
        requires
            self.wf(),
        ensures
            checked(r, tree_check(self@)),
    {
        let ghost whole = modules_check(self@, 0, ErrorView::Multiple(Seq::empty()));
        let mut error = Error::none();
        let mut m: usize = 0;
        while m < self.modules.len()
            invariant
                m <= self@.modules.len(),
                self.wf(),
                whole == modules_check(self@, 0, ErrorView::Multiple(Seq::empty())),
                modules_check(self@, m as int, error@) == whole,
            decreases self@.modules.len() - m,
        {
            let module = self.modules.value(m);
            match module.verify(self) {
                Ok(()) => {},
                Err(err) => {
                    error = error.concat(err);
                },
            }
            m += 1;
        }
        error.collapse()
    }

    /// The modules of the tree by their names.
    pub fn modules(&self) -> (r: &Table<Module<'t>>)
        requires
            self.wf(),
        ensures
            r.wf(),
            views(r.values()) == self@.modules,
            forall|m: int| 0 <= m < r.values().len() ==> (#[trigger] r.values()[m]).funcs.wf(),
    {
        &self.modules
    }

    /// The functions of the tree by their names.
    pub fn funcs(&self) -> (r: &Table<Func<'t>>)
        requires
            self.wf(),
        ensures
            r.wf(),
            funcs_map(*r) == self@.funcs,
    {
        &self.funcs
    }

    /// The arena of the tree.
    pub fn stmts(&self) -> (r: &Vec<Option<Stmt<'t>>>)
        ensures
            arena_view(r@) == self@.stmts,
            self.wf() ==> linked(self@.stmts),
    {
        &self.stmts
    }
}

} // verus!

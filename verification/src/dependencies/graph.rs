use vstd::prelude::*;

use crate::ast::Tree;
use crate::ast::TreeView;
use crate::lexer::Ident;
use crate::names::Table;
use crate::views;

use super::error::checked;
use super::error::collapse;
use super::error::lemma_concat_flat;
use super::error::lemma_flat_collapse;
use super::error::plain;
use super::module::func_names;
use super::module::lemma_module_check;
use super::module::lemma_module_missing;
use super::module::module_missing;
use super::error::settle;
use super::error::Error;
use super::error::ErrorView;
use super::module::module_check;
use super::module::module_of;
use super::module::Module;
use super::module::ModuleView;

verus! {

/// The graph of the calls of a program: for each module, for each of its
/// functions, what the function depends on.
pub struct Graph<'g> {
    pub(super) modules: Table<Module<'g>>,
}

/// What a function depends on.
#[derive(Debug)]
pub enum Dependency<'d> {
    /// The function of this name, which it calls.
    Func(Ident<'d>),
}

impl<'d> View for Dependency<'d> {
    type V = Seq<char>;

    open spec fn view(&self) -> Seq<char> {
        match self {
            Dependency::Func(func) => func@,
        }
    }
}

/// The views of a sequence of dependencies, in order.
pub open spec fn deps_view(deps: Seq<Dependency>) -> Seq<Seq<char>> {
    Seq::new(deps.len(), |i: int| deps[i]@)
}

impl<'d> Dependency<'d> {
    /// A copy of this dependency that borrows its name.
    pub fn as_ref(&'d self) -> (r: Dependency<'d>)
        ensures
            r@ == self@,
    {
        match self {
            Dependency::Func(func) => Dependency::Func(func.as_ref()),
        }
    }
}

/// What a `Graph` stands for: its modules, in order.
pub struct GraphView {
    pub modules: Seq<ModuleView>,
}

impl<'g> View for Graph<'g> {
    type V = GraphView;

    closed spec fn view(&self) -> GraphView {
        GraphView { modules: views(self.modules.values()) }
    }
}

impl<'g> Graph<'g> {
    /// The tables of the graph are in order.
    pub closed spec fn wf(&self) -> bool {
        &&& self.modules.wf()
        &&& forall|m: int|
            0 <= m < self.modules.values().len() ==> (#[trigger] self.modules.values()[m]).wf()
    }

    /// The modules of the graph by their names.
    pub fn modules(&self) -> (r: &Table<Module<'g>>)
        requires
            self.wf(),
        ensures
            r.wf(),
            views(r.values()) == self@.modules,
            forall|m: int| 0 <= m < r.values().len() ==> (#[trigger] r.values()[m]).wf(),
    {
        &self.modules
    }
}

/// The graph of a tree: for each module of the tree, in order, the module
/// of the graph for it.
pub open spec fn graph_of(tree: TreeView) -> GraphView {
    GraphView { modules: Seq::new(tree.modules.len(), |m: int| module_of(tree, tree.modules[m])) }
}

/// The errors of the modules from index `m` on, added to `errors` in this
/// order.
pub open spec fn modules_check(graph: GraphView, m: int, errors: ErrorView) -> ErrorView
    decreases graph.modules.len() - m,
{
    if m < 0 || m >= graph.modules.len() {
        errors
    } else {
        match module_check(graph.modules[m]) {
            Ok(()) => modules_check(graph, m + 1, errors),
            Err(error) => modules_check(graph, m + 1, super::error::concat(errors, error)),
        }
    }
}

/// The check of a graph: every module is checked, and the errors of all of
/// them are collected. A function may call only what its own module
/// declares.
pub open spec fn graph_check(graph: GraphView) -> Result<(), ErrorView> {
    settle(modules_check(graph, 0, ErrorView::Multiple(Seq::empty())))
}

/// The errors of the modules of a graph from index `m` on: for each
/// module, in order, for each function, in order, one for each of its
/// dependencies that its module does not declare.
pub open spec fn graph_missing(graph: GraphView, m: int) -> Seq<ErrorView>
    decreases graph.modules.len() - m,
{
    if m < 0 || m >= graph.modules.len() {
        Seq::empty()
    } else {
        module_missing(graph.modules[m], 0) + graph_missing(graph, m + 1)
    }
}

/// The errors of the modules of a graph are those of each module, in order,
/// after the errors that were there.
pub proof fn lemma_modules_check(graph: GraphView, m: int, errors: Seq<ErrorView>)
    requires
        0 <= m,
    ensures
        modules_check(graph, m, ErrorView::Multiple(errors)) == ErrorView::Multiple(
            errors + graph_missing(graph, m),
        ),
        plain(graph_missing(graph, m)),
    decreases graph.modules.len() - m,
{
    if m >= graph.modules.len() {
        assert(errors + graph_missing(graph, m) =~= errors);
    } else {
        let own = module_missing(graph.modules[m], 0);
        lemma_module_check(graph.modules[m]);
        lemma_flat_collapse(own);
        match module_check(graph.modules[m]) {
            Ok(()) => {
                assert(own =~= Seq::<ErrorView>::empty());
                lemma_modules_check(graph, m + 1, errors);
                assert(errors + graph_missing(graph, m) =~= errors + graph_missing(graph, m + 1));
            },
            Err(error) => {
                lemma_concat_flat(errors, error);
                lemma_modules_check(graph, m + 1, errors + own);
                assert((errors + own) + graph_missing(graph, m + 1) =~= errors + graph_missing(
                    graph,
                    m,
                ));
            },
        }
        assert forall|i: int| 0 <= i < graph_missing(graph, m).len() implies !(
        #[trigger] graph_missing(graph, m)[i] is Multiple) by {
            if i < own.len() {
                assert(graph_missing(graph, m)[i] == own[i]);
            } else {
                assert(graph_missing(graph, m)[i] == graph_missing(graph, m + 1)[i - own.len()]);
            }
        }
    }
}

/// The errors of a graph hold the error for every dependency of every
/// function of every module from index `m` on that the module of the
/// function does not declare.
pub proof fn lemma_graph_missing(graph: GraphView, m: int, at: int, f: int, k: int)
    requires
        0 <= m <= at < graph.modules.len(),
        0 <= f < graph.modules[at].funcs.len(),
        0 <= k < graph.modules[at].funcs[f].dependencies.len(),
        !func_names(graph.modules[at]).contains(graph.modules[at].funcs[f].dependencies[k]),
    ensures
        graph_missing(graph, m).contains(
            ErrorView::MissingDependency {
                func: graph.modules[at].funcs[f].name,
                dependency: graph.modules[at].funcs[f].dependencies[k],
            },
        ),
    decreases at - m,
{
    let wanted = ErrorView::MissingDependency {
        func: graph.modules[at].funcs[f].name,
        dependency: graph.modules[at].funcs[f].dependencies[k],
    };
    let own = module_missing(graph.modules[m], 0);
    if m == at {
        lemma_module_missing(graph.modules[at], 0, f, k);
        let j = choose|j: int| 0 <= j < own.len() && own[j] == wanted;
        assert(graph_missing(graph, m)[j] == wanted);
    } else {
        lemma_graph_missing(graph, m + 1, at, f, k);
        let rest = graph_missing(graph, m + 1);
        let j = choose|j: int| 0 <= j < rest.len() && rest[j] == wanted;
        assert(graph_missing(graph, m)[own.len() + j] == wanted);
    }
}

/// The check of a graph ends as a check that has collected, for each
/// function of each module, an error for each dependency that the module of
/// the function does not declare: every function of every module is
/// checked, whatever the others do.
pub proof fn lemma_graph_check(graph: GraphView)
    ensures
        graph_check(graph) == collapse(graph_missing(graph, 0)),
        plain(graph_missing(graph, 0)),
{
    lemma_modules_check(graph, 0, Seq::empty());
    assert(Seq::<ErrorView>::empty() + graph_missing(graph, 0) =~= graph_missing(graph, 0));
}

/// A call of a function that the module of the caller does not declare
/// fails the check, whatever other modules declare: the errors collected
/// hold the one that names the caller and the function called.
pub proof fn lemma_call_out_of_module(graph: GraphView, m: int, f: int, k: int)
    requires
        0 <= m < graph.modules.len(),
        0 <= f < graph.modules[m].funcs.len(),
        0 <= k < graph.modules[m].funcs[f].dependencies.len(),
        !func_names(graph.modules[m]).contains(graph.modules[m].funcs[f].dependencies[k]),
    ensures
        graph_check(graph) is Err,
        super::error::flat(graph_check(graph)->Err_0).contains(
            ErrorView::MissingDependency {
                func: graph.modules[m].funcs[f].name,
                dependency: graph.modules[m].funcs[f].dependencies[k],
            },
        ),
{
    lemma_graph_check(graph);
    lemma_graph_missing(graph, 0, m, f, k);
    lemma_flat_collapse(graph_missing(graph, 0));
}

impl<'g> Graph<'g> {
    /// Collects what the functions of the tree depend on.
    pub fn build(ast: &'g Tree<'g>) -> (r: Graph<'g>)
        requires
            ast.wf(),
        ensures
            r.wf(),
            r@ == graph_of(ast@),
    {
        let ghost whole = graph_of(ast@);
        let given = ast.modules();
        let mut modules: Table<Module<'g>> = Table::new();
        let mut m: usize = 0;
        proof {
            given.lemma_distinct();
            ast.lemma_wf();
        }
        while m < given.len()
            invariant
                m <= given.names().len(),
                ast.wf(),
                given.wf(),
                given.names().no_duplicates(),
                views(given.values()) == ast@.modules,
                forall|i: int|
                    0 <= i < given.values().len() ==> (#[trigger] given.values()[i]).funcs.wf(),
                crate::ast::tree::declared(ast@.modules, ast@.funcs),
                modules.wf(),
                modules.values().len() == m,
                modules.names() == given.names().take(m as int),
                views(modules.values()) == whole.modules.take(m as int),
                forall|i: int| 0 <= i < m ==> (#[trigger] modules.values()[i]).wf(),
                whole == graph_of(ast@),
            decreases given.names().len() - m,
        {
            let name = given.name(m);
            let module = given.value(m);
            proof {
                if modules.names().contains(name@) {
                    let i = modules.names().index_of(name@);
                    assert(given.names()[i] == given.names().take(m as int)[i]);
                }
                assert(modules.place(name@) is None);
                assert(ast@.modules[m as int] == module@);
                assert forall|f: int| 0 <= f < module@.funcs.len() implies ast@.funcs.contains_key(
                    #[trigger] module@.funcs[f],
                ) by {
                    assert(ast@.funcs.contains_key(ast@.modules[m as int].funcs[f]));
                }
            }
            let ghost before = modules;
            let made = Module::build(module, ast);
            modules.insert(name, made);
            proof {
                assert(made@ == whole.modules[m as int]);
                assert(modules.values() == before.values().push(made));
                assert(modules.names() =~= given.names().take(m + 1));
                assert(views(modules.values()) =~= whole.modules.take(m + 1));
            }
            m += 1;
        }
        proof {
            assert(whole.modules.take(m as int) =~= whole.modules);
        }
        Graph { modules }
    }

    /// Checks that every module holds what its functions depend on.
    pub fn verify<'e>(&'e self) -> (r: Result<(), Error<'e>>)
        requires
            self.wf(),
        ensures
            checked(r, graph_check(self@)),
    {
        let ghost whole = modules_check(self@, 0, ErrorView::Multiple(Seq::empty()));
        let mut error = Error::none();
        let mut m: usize = 0;
        while m < self.modules.len()
            invariant
                m <= self@.modules.len(),
                self.wf(),
                whole == modules_check(self@, 0, ErrorView::Multiple(Seq::empty())),
                modules_check(self@, m as int, error@) == whole,
            decreases self@.modules.len() - m,
        {
            match self.modules.value(m).verify() {
                Ok(()) => {},
                Err(err) => {
                    error = error.concat(err);
                },
            }
            m += 1;
        }
        error.collapse()
    }
}

} // verus!

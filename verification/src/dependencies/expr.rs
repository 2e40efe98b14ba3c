use vstd::prelude::*;

use crate::parser::expr::exprs_view;
use crate::parser::expr::Expr;
use crate::parser::expr::ExprView;

use super::graph::deps_view;
use super::graph::Dependency;

verus! {

/// The functions that an expression calls, in the order of the calls: a
/// call names its function, then come the calls in its arguments. The
/// expressions embedded in a string are not looked into.
pub open spec fn expr_deps(expr: ExprView) -> Seq<Seq<char>>
    decreases expr, 0nat,
{
    match expr {
        ExprView::Literal(_) => Seq::empty(),
        ExprView::Func(func) => seq![func.name] + args_deps(func.args, 0),
        ExprView::Var(_) => Seq::empty(),
    }
}

/// The functions that the arguments from index `k` on call.
pub open spec fn args_deps(args: Seq<ExprView>, k: int) -> Seq<Seq<char>>
    decreases args, args.len() - k,
{
    if k < 0 || k >= args.len() {
        Seq::empty()
    } else {
        expr_deps(args[k]) + args_deps(args, k + 1)
    }
}

impl<'e> Expr<'e> {
    /// The functions that this expression calls.
    pub fn dependencies(&'e self) -> (r: Vec<Dependency<'e>>)
        ensures
            deps_view(r@) == expr_deps(self@),
        decreases self,
    {
        match self {
            Expr::Literal(_) => {
                let r: Vec<Dependency<'e>> = Vec::new();
                assert(deps_view(r@) =~= Seq::<Seq<char>>::empty());
                r
            },
            Expr::Var(_) => {
                let r: Vec<Dependency<'e>> = Vec::new();
                assert(deps_view(r@) =~= Seq::<Seq<char>>::empty());
                r
            },
            Expr::Func(func) => {
                let ghost args = exprs_view(func.args.0@);
                let mut dependencies: Vec<Dependency<'e>> = Vec::new();
                dependencies.push(Dependency::Func(func.name.as_ref()));
                let given = func.args.inner();
                let mut k: usize = 0;
                assert(deps_view(dependencies@) =~= seq![func.name@]);
                while k < given.len()
                    invariant
                        k <= given@.len(),
                        given@ == func.args.0@,
                        *self is Func,
                        self->Func_0 == *func,
                        args == exprs_view(given@),
                        deps_view(dependencies@) + args_deps(args, k as int) == seq![func.name@]
                            + args_deps(args, 0),
                    decreases given@.len() - k,
                {
                    proof {
                        assert(decreases_to!(*self => self->Func_0));
                        assert(decreases_to!(self->Func_0 => self->Func_0.args));
                        assert(decreases_to!(self->Func_0.args => self->Func_0.args.0));
                        assert(decreases_to!(self->Func_0.args.0 => self->Func_0.args.0[k as int]));
                    }
                    let ghost before = deps_view(dependencies@);
                    let mut more = given[k].dependencies();
                    let ghost added = deps_view(more@);
                    dependencies.append(&mut more);
                    proof {
                        assert(args[k as int] == given@[k as int]@);
                        assert(deps_view(dependencies@) =~= before + added);
                        assert((before + added) + args_deps(args, k + 1) =~= before + (added
                            + args_deps(args, k + 1)));
                    }
                    k += 1;
                }
                assert(deps_view(dependencies@) + Seq::<Seq<char>>::empty() =~= deps_view(
                    dependencies@,
                ));
                dependencies
            },
        }
    }
}

} // verus!

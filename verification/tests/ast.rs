use toyc::ast::Error;
use toyc::ast::Func;
use toyc::dependencies::Graph;
use toyc::parser::decl::Arg;
use toyc::ast::ErrorKind;
use toyc::ast::Stmt;
use toyc::ast::Tree;
use toyc::lexer::lex;
use toyc::lexer::Ident;
use toyc::parser::parse;
use toyc::parser::Module;
use toyc::ty::Ty;

/// Runs `check` on the tree of a program.
fn with_tree(input: &str, check: impl FnOnce(&Tree)) {
    let tokens = lex(input).unwrap();
    let module = parse(&tokens).unwrap();
    let tree = Tree::build(&[&module]);
    check(&tree);
}

/// An error as a text.
fn show(error: &Error) -> String {
    match &error.kind {
        ErrorKind::WrongTy { stmt, returned, accepted } => {
            format!("wrong {:?} for {:?} in {}", returned, accepted, kind(stmt))
        }
        ErrorKind::MissingReturn(ty) => format!("missing return {:?}", ty),
        ErrorKind::UnknownVariable { stmt, name } => {
            format!("unknown variable {} in {}", name.inner(), kind(stmt))
        }
        ErrorKind::UnknownFunction { stmt, name } => {
            format!("unknown function {} in {}", name.inner(), kind(stmt))
        }
        ErrorKind::Multiple(errors) => {
            let errors: Vec<String> = errors.iter().map(show).collect();
            format!("[{}]", errors.join(" | "))
        }
    }
}

fn kind(stmt: &Stmt) -> &'static str {
    match stmt {
        Stmt::Let { .. } => "let",
        Stmt::Return { .. } => "return",
        Stmt::Expr { .. } => "expr",
    }
}

/// The result of the check of a program, as a text.
fn verdict(input: &str) -> String {
    let mut text = String::new();
    with_tree(input, |tree| {
        text = match tree.verify() {
            Ok(()) => String::from("ok"),
            Err(error) => show(&error),
        }
    });
    text
}

#[test]
fn greet_passes_the_check() {
    assert_eq!(verdict("func greet(name: str): str { return name; }"), "ok");
}

#[test]
fn a_void_function_needs_no_return() {
    assert_eq!(verdict("func f() { }"), "ok");
    assert_eq!(verdict("func f(): void { let a = 1; }"), "ok");
}

#[test]
fn a_function_that_returns_a_value_needs_a_return() {
    assert_eq!(verdict("func f(): str { }"), "missing return Str");
    assert_eq!(verdict("func f(): str { let a = \"x\"; }"), "missing return Str");
    assert_eq!(verdict("func f(): i32 { let a = 1; }"), "missing return I32");
}

#[test]
fn a_missing_return_hides_the_errors_collected() {
    assert_eq!(verdict("func f(): str { let a = b; }"), "missing return Str");
}

#[test]
fn one_argument_too_many_is_reported_with_its_type() {
    assert_eq!(
        verdict("func g() {} func f() { g(1); }"),
        "wrong I32 for [] in expr"
    );
    assert_eq!(
        verdict("func g(a: i32) {} func f() { g(1, \"s\", 2); }"),
        "wrong Str for [] in expr"
    );
}

#[test]
fn missing_arguments_are_reported_with_the_types_missing() {
    assert_eq!(
        verdict("func g(a: i32, b: str) {} func f() { g(1); }"),
        "wrong Void for [Str] in expr"
    );
    assert_eq!(
        verdict("func g(a: i32, b: str, c: T) {} func f() { let x = g(); }"),
        "wrong Void for [I32, Str, User(Ref(\"T\"))] in let"
    );
}

#[test]
fn an_argument_of_another_type_is_reported() {
    assert_eq!(
        verdict("func g(a: i32, b: str) {} func f() { g(1, 2); }"),
        "wrong I32 for [Str] in expr"
    );
    assert_eq!(verdict("func g(a: i32, b: str) {} func f() { g(1, `x${f()}`); }"), "ok");
}

#[test]
fn a_return_of_another_type_is_reported_and_the_check_goes_on() {
    assert_eq!(verdict("func f(): str { return 1; }"), "wrong I32 for [Str] in return");
    assert_eq!(
        verdict("func f(): str { return 1; let a = b; return c; }"),
        "[wrong I32 for [Str] in return | unknown variable b in let | unknown variable c in return]"
    );
}

#[test]
fn an_expression_without_a_type_ends_the_check_of_its_function() {
    assert_eq!(
        verdict("func f(): str { let a = b; c; return 1; }"),
        "unknown variable c in expr"
    );
    assert_eq!(verdict("func f() { g(); }"), "unknown function g in expr");
}

#[test]
fn a_let_gives_its_variable_a_type() {
    assert_eq!(verdict("func f(): i32 { let a = 1; return a; }"), "ok");
    assert_eq!(verdict("func f(): i32 { let a = \"s\"; return a; }"), "wrong Str for [I32] in return");
    // The last `let` of a name counts.
    assert_eq!(verdict("func f(): i32 { let a = \"s\"; let a = 1; return a; }"), "ok");
    assert_eq!(verdict("func f(a: str): i32 { let a = 1; return a; }"), "ok");
    // A `let` that fails sets nothing.
    assert_eq!(
        verdict("func f(): i32 { let a = b; return a; }"),
        "[unknown variable b in let | unknown variable a in return]"
    );
}

#[test]
fn a_call_has_the_type_that_its_function_returns() {
    assert_eq!(verdict("func g(): str { return \"s\"; } func f(): str { return g(); }"), "ok");
    assert_eq!(
        verdict("func g(): str { return \"s\"; } func f(): i32 { return g(); }"),
        "wrong Str for [I32] in return"
    );
    assert_eq!(verdict("func f(a: T): T { return a; }"), "ok");
    assert_eq!(verdict("func f(a: T): U { return a; }"), "wrong User(Ref(\"T\")) for [User(Ref(\"U\"))] in return");
}

#[test]
fn every_function_is_checked() {
    assert_eq!(
        verdict("func a(): i32 { } func b() { } func c(): str { return 1; }"),
        "[missing return I32 | wrong I32 for [Str] in return]"
    );
    assert_eq!(
        verdict("func a(): i32 { return x; return y; } func c(): str { return 1; }"),
        "[unknown variable x in return | unknown variable y in return | wrong I32 for [Str] in return]"
    );
}

#[test]
fn every_module_is_checked() {
    let first = lex("func a(): i32 { }").unwrap();
    let second = lex("func b(): str { }").unwrap();
    let mut first = parse(&first).unwrap();
    let mut second = parse(&second).unwrap();
    first.name = Ident::Ref("first");
    second.name = Ident::Ref("second");
    let tree = Tree::build(&[&first, &second]);
    assert_eq!(show(&tree.verify().unwrap_err()), "[missing return I32 | missing return Str]");
    assert_eq!(tree.modules().len(), 2);
    assert_eq!(tree.modules().name(1), "second");
}

#[test]
fn collected_errors_collapse() {
    let one = || Error::missing_ty(Ty::Str);
    assert!(Error::multiple(vec![]).collapse().is_ok());
    assert!(Error::none().collapse().is_ok());
    assert_eq!(show(&Error::multiple(vec![one()]).collapse().unwrap_err()), "missing return Str");
    assert_eq!(
        show(&Error::multiple(vec![one(), Error::missing_ty(Ty::I32)]).collapse().unwrap_err()),
        "[missing return Str | missing return I32]"
    );
    assert_eq!(
        show(&Error::multiple(vec![one(), one(), one()]).collapse().unwrap_err()),
        "[missing return Str | missing return Str | missing return Str]"
    );
    assert_eq!(show(&one().collapse().unwrap_err()), "missing return Str");
}

#[test]
fn type_errors_are_joined_flat() {
    let one = || Error::missing_ty(Ty::Str);
    let two = || Error::missing_ty(Ty::I32);
    assert_eq!(show(&one().concat(two())), "[missing return Str | missing return I32]");
    assert_eq!(
        show(&Error::multiple(vec![one(), one()]).concat(two())),
        "[missing return Str | missing return Str | missing return I32]"
    );
    assert_eq!(
        show(&two().concat(Error::multiple(vec![one(), one()]))),
        "[missing return Str | missing return Str | missing return I32]"
    );
    assert_eq!(
        show(&Error::multiple(vec![one()]).concat(Error::multiple(vec![two(), two()]))),
        "[missing return Str | missing return I32 | missing return I32]"
    );
    assert_eq!(show(&Error::none().concat(one())), "[missing return Str]");
}

#[test]
fn statements_are_chained_through_the_arena() {
    with_tree("func a() { x; y; z; } func b() { } func c() { w; }", |tree| {
        let stmts = tree.stmts();
        assert_eq!(stmts.len(), 4);
        let next: Vec<Option<usize>> =
            stmts.iter().map(|stmt| stmt.as_ref().unwrap().next()).collect();
        assert_eq!(next, vec![Some(1), Some(2), None, None]);
        assert_eq!(tree.funcs().get("a").unwrap().start, Some(0));
        assert_eq!(tree.funcs().get("b").unwrap().start, None);
        assert_eq!(tree.funcs().get("c").unwrap().start, Some(3));
        assert_eq!(tree.funcs().len(), 3);
        let main = tree.modules().get("main").unwrap();
        assert_eq!(main.funcs.len(), 3);
        assert_eq!(main.funcs.name(0), "a");
        assert_eq!(main.funcs.name(2), "c");
        assert!(main.funcs.contains("b"));
        assert!(!main.funcs.contains("d"));
    });
}

#[test]
fn a_function_declared_again_takes_the_place_of_the_first() {
    with_tree("func a(): i32 { return 1; } func a(): str { return \"s\"; }", |tree| {
        assert_eq!(tree.funcs().len(), 1);
        let a = tree.funcs().get("a").unwrap();
        assert_eq!(a.ret, Ty::Str);
        assert_eq!(a.start, Some(1));
        assert_eq!(tree.stmts().len(), 2);
        assert_eq!(tree.modules().get("main").unwrap().funcs.len(), 1);
        assert!(tree.verify().is_ok());
    });
}

#[test]
fn a_module_without_statements_has_an_empty_arena() {
    let module = Module { name: Ident::Ref("m"), funcs: vec![] };
    let tree = Tree::build(&[&module]);
    assert!(tree.stmts().is_empty());
    assert_eq!(tree.funcs().len(), 0);
    assert!(tree.verify().is_ok());
    let tree = Tree::build(&[]);
    assert_eq!(tree.modules().len(), 0);
    assert!(tree.verify().is_ok());
}

#[test]
fn types_are_compared_by_what_they_name() {
    assert!(Ty::I32.same(&Ty::I32));
    assert!(!Ty::I32.same(&Ty::Str));
    assert!(!Ty::Void.same(&Ty::Str));
    assert!(Ty::User(Ident::Ref("T")).same(&Ty::User(Ident::Owned(String::from("T")))));
    assert!(!Ty::User(Ident::Ref("T")).same(&Ty::User(Ident::Ref("U"))));
    assert!(!Ty::User(Ident::Ref("str")).same(&Ty::Str));
    let user = Ty::User(Ident::Owned(String::from("T")));
    assert!(user.as_ref().same(&user));
    assert!(user.duplicate().same(&user));
}

#[test]
fn a_function_from_outside_is_declared_and_taken_out_again() {
    let tokens = lex("func main() { printf(\"%i\", 1, 2); }").unwrap();
    let module = parse(&tokens).unwrap();
    let mut tree = Tree::build(&[&module]);
    assert!(tree.verify().is_err());
    assert!(Graph::build(&tree).verify().is_err());

    let args = vec![Arg { name: Ident::Ref("format"), ty: Ty::Str }];
    tree.declare(Func {
        name: Ident::Owned(String::from("printf")),
        args: &args,
        ret: Ty::Void,
        variadic: true,
        start: None,
    });
    assert!(tree.funcs().contains("printf"));
    assert!(tree.modules().get("main").unwrap().funcs.contains("printf"));
    assert_eq!(tree.modules().get("main").unwrap().funcs.len(), 2);
    assert!(tree.verify().is_ok());
    assert!(Graph::build(&tree).verify().is_ok());

    tree.remove("printf");
    assert!(!tree.funcs().contains("printf"));
    assert!(!tree.modules().get("main").unwrap().funcs.contains("printf"));
    assert_eq!(tree.funcs().len(), 1);
    assert_eq!(tree.modules().get("main").unwrap().funcs.name(0), "main");
    assert!(tree.verify().is_err());
    tree.remove("printf");
    assert_eq!(tree.funcs().len(), 1);
}

#[test]
fn a_variadic_function_takes_more_arguments_and_fewer() {
    let tokens = lex("func main() { log(\"a\"); log(\"a\", 1, \"b\"); log(); log(1); }").unwrap();
    let module = parse(&tokens).unwrap();
    let mut tree = Tree::build(&[&module]);
    let args = vec![Arg { name: Ident::Ref("format"), ty: Ty::Str }];
    tree.declare(Func {
        name: Ident::Ref("log"),
        args: &args,
        ret: Ty::Void,
        variadic: true,
        start: None,
    });
    // The first three calls fit; the last gives a number for the text.
    assert_eq!(show(&tree.verify().unwrap_err()), "wrong I32 for [Str] in expr");
}

#[test]
fn a_statement_of_the_arena_borrows_from_the_parsed_one() {
    let tokens = lex("func f() { let a = g(1); return a; h(); }").unwrap();
    let module = parse(&tokens).unwrap();
    let stmts = &module.funcs[0].stmts;
    let first = Stmt::from(&stmts[0]);
    assert_eq!(kind(&first), "let");
    assert_eq!(first.next(), None);
    let first = first.with_next(Some(4));
    assert_eq!(first.next(), Some(4));
    assert_eq!(kind(&first), "let");
    assert_eq!(kind(&Stmt::from(&stmts[1])), "return");
    assert_eq!(kind(&Stmt::from(&stmts[2]).with_next(Some(1)).with_next(None)), "expr");
    match &first {
        Stmt::Let { let_, .. } => {
            assert_eq!(let_.name.inner(), "a");
            assert_eq!(let_.as_ref().name.inner(), "a");
        }
        _ => panic!("expected a let"),
    }
}

use toyc::ast::Tree;
use toyc::dependencies::Dependency;
use toyc::dependencies::Error;
use toyc::dependencies::ErrorKind;
use toyc::dependencies::Graph;
use toyc::lexer::lex;
use toyc::lexer::Ident;
use toyc::parser::expr::Expr;
use toyc::parser::parse;

/// An error as a text.
fn show(error: &Error) -> String {
    match &error.kind {
        ErrorKind::MissingDependency { func, dependency } => {
            let Dependency::Func(name) = dependency;
            format!("{} misses {}", func.inner(), name.inner())
        }
        ErrorKind::Multiple(errors) => {
            let errors: Vec<String> = errors.iter().map(show).collect();
            format!("[{}]", errors.join(" | "))
        }
    }
}

/// The result of the check of the dependencies of a program, as a text.
fn verdict(input: &str) -> String {
    let tokens = lex(input).unwrap();
    let module = parse(&tokens).unwrap();
    let tree = Tree::build(&[&module]);
    let graph = Graph::build(&tree);
    let text = match graph.verify() {
        Ok(()) => String::from("ok"),
        Err(error) => show(&error),
    };
    text
}

/// The functions that an expression calls.
fn calls(input: &str) -> Vec<String> {
    let tokens = lex(input).unwrap();
    let (_, expr, _) = Expr::parse(&tokens, 0).unwrap();
    let names = expr
        .dependencies()
        .iter()
        .map(|dependency| {
            let Dependency::Func(name) = dependency;
            String::from(name.inner())
        })
        .collect();
    names
}

#[test]
fn greet_depends_on_nothing() {
    assert_eq!(verdict("func greet(name: str): str { return name; }"), "ok");
    assert!(calls("name;").is_empty());
    assert!(calls("1;").is_empty());
}

#[test]
fn calls_are_collected_with_those_in_their_arguments() {
    assert_eq!(calls("a(b(c(), 1), d(), x, a());"), vec!["a", "b", "c", "d", "a"]);
    assert_eq!(calls("a();"), vec!["a"]);
}

#[test]
fn calls_in_strings_are_not_collected() {
    assert!(calls("`x${f()}`;").is_empty());
    assert_eq!(calls("g(`x${f()}`);"), vec!["g"]);
}

#[test]
fn a_function_may_call_what_its_module_declares() {
    assert_eq!(verdict("func a() { b(); a(); } func b() { let x = a(); return b(); }"), "ok");
}

#[test]
fn a_call_of_what_the_module_lacks_is_reported() {
    assert_eq!(verdict("func a() { b(); }"), "a misses b");
    assert_eq!(verdict("func a() { let x = f(g(1)); }"), "[a misses f | a misses g]");
}

#[test]
fn a_dependency_is_reported_once() {
    assert_eq!(verdict("func a() { b(); b(); let x = b(); return b(b()); }"), "a misses b");
}

#[test]
fn the_errors_of_all_functions_are_collected() {
    assert_eq!(
        verdict("func a() { x(); y(); } func b() { a(); } func c() { z(); }"),
        "[a misses x | a misses y | c misses z]"
    );
    assert_eq!(verdict("func a() { x(); } func c() { z(); }"), "[a misses x | c misses z]");
}

#[test]
fn a_call_into_another_module_is_rejected() {
    let first = lex("func caller() { callee(); }").unwrap();
    let second = lex("func callee() { }").unwrap();
    let mut first = parse(&first).unwrap();
    let mut second = parse(&second).unwrap();
    first.name = Ident::Ref("first");
    second.name = Ident::Ref("second");
    let tree = Tree::build(&[&first, &second]);
    // The callee is a function of the tree, and the types are in order.
    assert!(tree.funcs().contains("callee"));
    assert!(tree.verify().is_ok());
    let graph = Graph::build(&tree);
    let error = graph.verify().unwrap_err();
    match &error.kind {
        ErrorKind::MissingDependency { func, dependency } => {
            assert_eq!(func.inner(), "caller");
            let Dependency::Func(name) = dependency;
            assert_eq!(name.inner(), "callee");
            let Dependency::Func(name) = dependency.as_ref();
            assert_eq!(name.inner(), "callee");
        }
        _ => panic!("expected a missing dependency"),
    }
}

#[test]
fn the_errors_of_all_modules_are_collected() {
    let first = lex("func a() { b(); }").unwrap();
    let second = lex("func b() { a(); c(); }").unwrap();
    let mut first = parse(&first).unwrap();
    let mut second = parse(&second).unwrap();
    first.name = Ident::Ref("first");
    second.name = Ident::Ref("second");
    let tree = Tree::build(&[&first, &second]);
    let graph = Graph::build(&tree);
    assert_eq!(show(&graph.verify().unwrap_err()), "[a misses b | b misses a | b misses c]");
}

#[test]
fn collected_dependency_errors_collapse() {
    let one = || Error::missing_dependency(Ident::Ref("f"), Dependency::Func(Ident::Ref("g")));
    assert!(Error::multiple(vec![]).collapse().is_ok());
    assert_eq!(show(&Error::multiple(vec![one()]).collapse().unwrap_err()), "f misses g");
    assert_eq!(
        show(&Error::multiple(vec![one(), one()]).collapse().unwrap_err()),
        "[f misses g | f misses g]"
    );
    assert_eq!(show(&one().concat(one())), "[f misses g | f misses g]");
    assert_eq!(show(&Error::none().concat(one()).concat(Error::multiple(vec![one()]))), "[f misses g | f misses g]");
    assert_eq!(show(&one().concat(Error::multiple(vec![one(), one()]))), "[f misses g | f misses g | f misses g]");
}

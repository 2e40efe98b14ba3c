use toyc::lexer::lex;
use toyc::lexer::Keyword;
use toyc::lexer::Position;
use toyc::lexer::Symbol;
use toyc::lexer::Token;
use toyc::lexer::TokenTy;
use toyc::lexer::TokenVariant;
use toyc::parser::decl::Decl;
use toyc::parser::error::Error;
use toyc::parser::error::ErrorKind;
use toyc::parser::expr::DynStringSeg;
use toyc::parser::expr::Expr;
use toyc::parser::expr::Literal;
use toyc::parser::parse;
use toyc::parser::split;
use toyc::parser::stmt::Stmt;
use toyc::parser::try_eq_keyword;
use toyc::parser::try_eq_symbol;
use toyc::parser::try_get_ident;
use toyc::parser::try_get_ty;
use toyc::ty::Ty;

fn at(line: usize, col: usize) -> Position {
    Position { line, col }
}

/// An expression as a text.
fn show(expr: &Expr) -> String {
    match expr {
        Expr::Literal(Literal::Int { name, value }) => format!("{}={}", name.inner(), value),
        Expr::Literal(Literal::String { name, string }) => {
            format!("{}={:?}", name.inner(), string)
        }
        Expr::Literal(Literal::DynString { name, segs }) => {
            let segs: Vec<String> = segs
                .iter()
                .map(|seg| match seg {
                    DynStringSeg::String(string) => format!("{:?}", string),
                    DynStringSeg::Expr(expr) => show(expr),
                })
                .collect();
            format!("{}=`{}`", name.inner(), segs.join("+"))
        }
        Expr::Func(func) => {
            let args: Vec<String> = func.args.inner().iter().map(show).collect();
            format!("{}({})", func.name.inner(), args.join(","))
        }
        Expr::Var(var) => format!("{}", var.inner()),
    }
}

fn show_stmt(stmt: &Stmt) -> String {
    match stmt {
        Stmt::Let(let_) => format!("let {} = {}", let_.name.inner(), show(&let_.value)),
        Stmt::Return(ret) => format!("return {}", show(&ret.0)),
        Stmt::Expr(expr) => show(expr),
    }
}

/// The statements of the first function of a program, as texts.
fn body(input: &str) -> Vec<String> {
    let tokens = lex(input).unwrap();
    let module = parse(&tokens).unwrap();
    module.funcs[0].stmts.iter().map(show_stmt).collect()
}

/// An error as a text.
fn show_error(error: &Error) -> String {
    match &error.kind {
        ErrorKind::MissingToken { handled, after } => format!("missing {:?} after {:?}", handled, after),
        ErrorKind::WrongToken { token, handled } => {
            format!("wrong {:?} for {:?}", token.pos, handled)
        }
        ErrorKind::Multiple(errors) => {
            let errors: Vec<String> = errors.iter().map(show_error).collect();
            format!("[{}]", errors.join(" | "))
        }
    }
}

fn failure(input: &str) -> String {
    let tokens = lex(input).unwrap();
    show_error(&parse(&tokens).unwrap_err())
}

#[test]
fn greet_parses_to_one_function() {
    let tokens = lex("func greet(name: str): str { return name; }").unwrap();
    let module = parse(&tokens).unwrap();
    assert_eq!(module.name.inner(), "main");
    assert_eq!(module.funcs.len(), 1);
    let func = &module.funcs[0];
    assert_eq!(func.name.inner(), "greet");
    assert_eq!(func.args.len(), 1);
    assert_eq!(func.args[0].name.inner(), "name");
    assert_eq!(func.args[0].ty, Ty::Str);
    assert_eq!(func.ret, Ty::Str);
    assert!(!func.variadic);
    assert_eq!(func.stmts.len(), 1);
    assert_eq!(show_stmt(&func.stmts[0]), "return name");
}

#[test]
fn a_minimal_program_parses_whole() {
    let tokens = lex("func main() { }").unwrap();
    let module = parse(&tokens).unwrap();
    assert_eq!(module.funcs.len(), 1);
    assert_eq!(module.funcs[0].name.inner(), "main");
    assert_eq!(module.funcs[0].ret, Ty::Void);
    assert!(module.funcs[0].args.is_empty());
    assert!(module.funcs[0].stmts.is_empty());

    // Every token but the last one is taken up by the declaration.
    let (taken, decl, lits) = Decl::parse(&tokens, 0).unwrap();
    assert_eq!(taken, tokens.len() - 1);
    assert_eq!(lits, 0);
    let Decl::Func(func) = decl;
    assert_eq!(func.name.inner(), "main");

    let tokens = lex("func one(): i32 { return 1; }").unwrap();
    let (taken, _, lits) = Decl::parse(&tokens, 0).unwrap();
    assert_eq!(taken, tokens.len() - 1);
    assert_eq!(lits, 1);
    assert_eq!(parse(&tokens).unwrap().funcs[0].ret, Ty::I32);
}

#[test]
fn an_empty_program_is_a_module_without_functions() {
    let tokens = lex("  // nothing\n").unwrap();
    let module = parse(&tokens).unwrap();
    assert!(module.funcs.is_empty());
}

#[test]
fn functions_come_in_order() {
    let tokens = lex("func a() {} func b(x: i32, y: T): U {} func c(): void {}").unwrap();
    let module = parse(&tokens).unwrap();
    let names: Vec<&str> = module.funcs.iter().map(|func| func.name.inner()).collect();
    assert_eq!(names, vec!["a", "b", "c"]);
    let b = &module.funcs[1];
    assert_eq!(b.args.len(), 2);
    assert_eq!(b.args[0].ty, Ty::I32);
    assert_eq!(b.args[1].name.inner(), "y");
    assert!(matches!(&b.args[1].ty, Ty::User(name) if name.inner() == "T"));
    assert!(matches!(&b.ret, Ty::User(name) if name.inner() == "U"));
    assert_eq!(module.funcs[2].ret, Ty::Void);
}

#[test]
fn statements_are_read_in_order() {
    assert_eq!(
        body("func f() { let a = 1; g(a, \"s\"); return h(); }"),
        vec!["let a = lit0=1", "g(a,lit1=\"s\")", "return h()"]
    );
}

#[test]
fn calls_nest() {
    assert_eq!(body("func f() { a(b(c(), d), e()); }"), vec!["a(b(c(),d),e())"]);
    assert_eq!(body("func f() { a(); }"), vec!["a()"]);
}

#[test]
fn literals_are_named_in_the_order_they_are_finished() {
    // An interpolated string takes its name after the expressions in it.
    assert_eq!(
        body("func f() { let a = `x${1}y${g(2)}`; let b = 3; }"),
        vec!["let a = lit2=`\"x\"+lit0=1+\"y\"+g(lit1=2)+\"\"`", "let b = lit3=3"]
    );
}

#[test]
fn a_failed_way_to_read_uses_up_no_names() {
    // `g(1` is tried as a call first and fails; the literals read on the
    // way keep no number.
    let tokens = lex("g(1 2;").unwrap();
    let error = Expr::parse(&tokens, 7);
    match error {
        Ok((taken, Expr::Var(var), lits)) => {
            assert_eq!(taken, 1);
            assert_eq!(var.inner(), "g");
            assert_eq!(lits, 7);
        }
        _ => panic!("expected a variable"),
    }
    let tokens = lex("g(1, 2)").unwrap();
    let (taken, expr, lits) = Expr::parse(&tokens, 7).unwrap();
    assert_eq!(taken, 6);
    assert_eq!(show(&expr), "g(lit7=1,lit8=2)");
    assert_eq!(lits, 9);
}

#[test]
fn the_numbers_of_literals_start_again_after_the_greatest() {
    let tokens = lex("1;").unwrap();
    let (_, expr, lits) = Expr::parse(&tokens, usize::MAX).unwrap();
    assert_eq!(show(&expr), format!("lit{}=1", usize::MAX));
    assert_eq!(lits, 0);
}

#[test]
fn an_embedded_expression_must_take_all_its_tokens() {
    let tokens = lex("`${a(b)c}`;").unwrap();
    let error = Expr::parse(&tokens, 0).unwrap_err();
    match error.kind {
        ErrorKind::WrongToken { token, handled } => {
            assert!(handled.is_empty());
            assert_eq!(token.pos, at(0, 6));
        }
        _ => panic!("expected a wrong token"),
    }
    let tokens = lex("`${}`;").unwrap();
    let error = Expr::parse(&tokens, 0).unwrap_err();
    assert_eq!(show_error(&error), "missing [Literal, Ident, Ident] after None");
}

#[test]
fn a_missing_semicolon_fails_every_way_to_read_the_statement() {
    assert_eq!(
        failure("func f() { return 1 }"),
        "[wrong Position { line: 0, col: 20 } for [Symbol(SemiColon)] \
         | wrong Position { line: 0, col: 11 } for [Keyword(Let)] \
         | wrong Position { line: 0, col: 11 } for [Literal] \
         | wrong Position { line: 0, col: 11 } for [Ident] \
         | wrong Position { line: 0, col: 11 } for [Ident]]"
    );
}

#[test]
fn the_place_of_a_missing_token_is_the_latest_reached() {
    // The tokens end inside the call; the place is that of the last token.
    let tokens = lex("f(a, ").unwrap();
    let tokens = &tokens[..tokens.len() - 1];
    let error = toyc::parser::expr::Func::parse(tokens, 0).unwrap_err();
    match &error.kind {
        ErrorKind::MissingToken { handled, after } => {
            assert_eq!(handled, &vec![TokenTy::Literal, TokenTy::Ident, TokenTy::Ident]);
            assert_eq!(*after, None);
        }
        _ => panic!("expected a missing token"),
    }
    let tokens = lex("f(a ").unwrap();
    let tokens = &tokens[..tokens.len() - 1];
    let error = toyc::parser::expr::Func::parse(tokens, 0).unwrap_err();
    match &error.kind {
        ErrorKind::MissingToken { handled, after } => {
            assert_eq!(
                handled,
                &vec![
                    TokenTy::Literal,
                    TokenTy::Ident,
                    TokenTy::Ident,
                    TokenTy::Symbol(Symbol::RightParen)
                ]
            );
            assert_eq!(*after, Some(at(0, 2)));
        }
        _ => panic!("expected a missing token"),
    }
}

#[test]
fn max_after_never_moves_a_place_back() {
    let early = Some(at(1, 2));
    let late = Some(at(3, 0));
    let place = |error: Error| match error.kind {
        ErrorKind::MissingToken { after, .. } => after,
        _ => panic!("expected a missing token"),
    };
    assert_eq!(place(Error::missing_token(vec![], None).max_after(early)), early);
    assert_eq!(place(Error::missing_token(vec![], early).max_after(late)), late);
    assert_eq!(place(Error::missing_token(vec![], late).max_after(early)), late);
    assert_eq!(place(Error::missing_token(vec![], late).max_after(None)), late);
    assert_eq!(place(Error::missing_token(vec![], None).max_after(None)), None);
    // Only the place of a missing token moves.
    let tokens = lex("x").unwrap();
    let wrong = Error::wrong_token(&tokens[0], vec![TokenTy::Ty]).max_after(late);
    assert!(wrong.is_wrong_token());
    let several = Error::multiple(vec![Error::missing_token(vec![], None)]).max_after(late);
    match several.kind {
        ErrorKind::Multiple(errors) => assert_eq!(place(errors.into_iter().next().unwrap()), None),
        _ => panic!("expected several errors"),
    }
}

#[test]
fn errors_are_joined_flat() {
    let one = || Error::missing_token(vec![TokenTy::Ident], None);
    let two = || Error::missing_token(vec![TokenTy::Ty], None);
    let len = |error: &Error| match &error.kind {
        ErrorKind::Multiple(errors) => errors.len(),
        _ => panic!("expected several errors"),
    };
    assert_eq!(show_error(&one().concat(two())), "[missing [Ident] after None | missing [Ty] after None]");
    let both = Error::multiple(vec![one(), one()]);
    assert_eq!(len(&both.concat(two())), 3);
    let both = Error::multiple(vec![one(), one()]);
    assert_eq!(
        show_error(&two().concat(both)),
        "[missing [Ident] after None | missing [Ident] after None | missing [Ty] after None]"
    );
    let left = Error::multiple(vec![one(), one()]);
    let right = Error::multiple(vec![two()]);
    assert_eq!(len(&left.concat(right)), 3);
    assert_eq!(len(&Error::multiple(vec![]).concat(one())), 1);
}

#[test]
fn a_declaration_must_start_with_func() {
    assert_eq!(failure("let"), "[wrong Position { line: 0, col: 0 } for [Keyword(Func)]]");
}

#[test]
fn a_function_needs_its_parts() {
    assert_eq!(failure("func"), "[wrong Position { line: 0, col: 4 } for [Ident]]");
    assert_eq!(failure("func f"), "[wrong Position { line: 0, col: 6 } for [Symbol(LeftParen)]]");
    assert_eq!(failure("func f(a)"), "[wrong Position { line: 0, col: 8 } for [Symbol(Colon)]]");
    assert_eq!(failure("func f(a:)"), "[wrong Position { line: 0, col: 9 } for [Ty, Ident]]");
    assert_eq!(
        failure("func f(a: i32 b: i32)"),
        "[wrong Position { line: 0, col: 14 } for [Symbol(Comma)]]"
    );
    assert_eq!(failure("func f(a: i32,)"), "[wrong Position { line: 0, col: 14 } for [Ident]]");
    assert_eq!(failure("func f():"), "[wrong Position { line: 0, col: 9 } for [Ty, Ident]]");
    assert_eq!(failure("func f() x"), "[wrong Position { line: 0, col: 9 } for [Symbol(LeftBrace)]]");
}

#[test]
fn tokens_that_end_early_are_missing() {
    let tokens = lex("func f() {").unwrap();
    let tokens = &tokens[..tokens.len() - 1];
    let error = parse(tokens).unwrap_err();
    assert_eq!(
        show_error(&error),
        "[missing [Keyword(Let), Keyword(Return), Literal, Ident, Ident, Symbol(RightBrace)] \
         after Some(Position { line: 0, col: 9 })]"
    );
    let none: Vec<Token> = vec![];
    assert_eq!(show_error(&parse(&none).unwrap_err()), "missing [EOF] after None");
    let tokens = lex("func f() {}").unwrap();
    let tokens = &tokens[..tokens.len() - 1];
    assert_eq!(show_error(&parse(tokens).unwrap_err()), "missing [EOF] after None");
}

#[test]
fn tokens_after_the_end_are_an_error() {
    let mut tokens = lex("func f() {}").unwrap();
    let mut more = lex("x y").unwrap();
    tokens.append(&mut more);
    let error = parse(&tokens).unwrap_err();
    assert_eq!(
        show_error(&error),
        format!("missing [Keyword(Func), EOF] after Some({:?})", at(0, 0))
    );
}

#[test]
fn the_helpers_ask_for_one_token() {
    let tokens = lex("func x ( i32").unwrap();
    assert!(try_eq_keyword(&tokens, 0, Keyword::Func).is_ok());
    assert!(try_eq_keyword(&tokens, 0, Keyword::Let).unwrap_err().is_wrong_token());
    assert!(!try_eq_keyword(&tokens, 9, Keyword::Let).unwrap_err().is_wrong_token());
    assert_eq!(try_get_ident(&tokens, 1).unwrap().inner(), "x");
    assert!(try_get_ident(&tokens, 0).is_err());
    assert!(try_eq_symbol(&tokens, 2, Symbol::LeftParen).is_ok());
    assert!(try_eq_symbol(&tokens, 2, Symbol::RightParen).is_err());
    assert_eq!(try_get_ty(&tokens, 3).unwrap(), Ty::I32);
    assert!(matches!(try_get_ty(&tokens, 1).unwrap(), Ty::User(name) if name.inner() == "x"));
    assert!(try_get_ty(&tokens, 2).is_err());
    assert_eq!(split(&tokens, 3).len(), 2);
    assert!(matches!(split(&tokens, 3)[0].token, TokenVariant::Ty(Ty::I32)));
    assert!(split(&tokens, 5).is_empty());
    assert!(split(&tokens, 50).is_empty());
}

#[test]
fn copies_that_borrow_are_the_same_expression() {
    let tokens = lex("f(1, `a${g(x)}`, \"s\", y)").unwrap();
    let (_, expr, _) = Expr::parse(&tokens, 0).unwrap();
    assert_eq!(show(&expr.as_ref()), show(&expr));
    assert_eq!(show(&expr), "f(lit0=1,lit1=`\"a\"+g(x)+\"\"`,lit2=\"s\",y)");
    match &expr {
        Expr::Func(func) => {
            assert_eq!(func.args.len(), 4);
            assert_eq!(func.args.as_ref().len(), 4);
            match &func.args.inner()[1] {
                Expr::Literal(lit) => {
                    assert_eq!(lit.name().inner(), "lit1");
                    assert_eq!(lit.as_ref().name().inner(), "lit1");
                }
                _ => panic!("expected a literal"),
            }
        }
        _ => panic!("expected a call"),
    }
}

#[test]
fn a_parameter_is_copied_with_its_name_and_type() {
    let tokens = lex("func f(a: i32, b: T) {}").unwrap();
    let module = parse(&tokens).unwrap();
    let args = &module.funcs[0].args;
    let copy = args[1].as_ref();
    assert_eq!(copy.name.inner(), "b");
    assert!(matches!(&copy.ty, Ty::User(name) if name.inner() == "T"));
    let copy = args[0].as_ref();
    assert_eq!(copy.name.inner(), "a");
    assert_eq!(copy.ty, Ty::I32);
}

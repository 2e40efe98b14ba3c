use toyc::lexer::lex;
use toyc::lexer::split;
use toyc::lexer::token::comment::Comment;
use toyc::lexer::Source;
use toyc::lexer::DynStringSeg;
use toyc::lexer::Error;
use toyc::lexer::ErrorKind;
use toyc::lexer::Ident;
use toyc::lexer::Keyword;
use toyc::lexer::Literal;
use toyc::lexer::Position;
use toyc::lexer::Symbol;
use toyc::lexer::Token;
use toyc::lexer::TokenVariant;
use toyc::ty::Ty;

fn at(line: usize, col: usize) -> Position {
    Position { line, col }
}

fn not_handled(line: usize, col: usize) -> Error {
    Error { kind: ErrorKind::NotHandled(at(line, col)) }
}

/// A token without its place, as a text.
fn content(token: &Token) -> String {
    match &token.token {
        TokenVariant::Keyword(keyword) => format!("{:?}", keyword),
        TokenVariant::Ty(ty) => format!("{:?}", ty),
        TokenVariant::Ident(ident) => format!("ident {}", ident.inner()),
        TokenVariant::Literal(Literal::Int(value)) => format!("int {}", value),
        TokenVariant::Literal(Literal::String(string)) => format!("string {}", string),
        TokenVariant::Literal(Literal::DynString(segs)) => {
            let mut text = String::from("dyn");
            for seg in segs {
                match seg {
                    DynStringSeg::String(string) => text.push_str(&format!(" [{}]", string)),
                    DynStringSeg::Insert(tokens) => {
                        text.push_str(&format!(" {:?}", contents_of(tokens)))
                    }
                }
            }
            text
        }
        TokenVariant::Symbol(symbol) => format!("{:?}", symbol),
        TokenVariant::EOF => String::from("eof"),
    }
}

fn contents_of(tokens: &[Token]) -> Vec<String> {
    tokens.iter().map(content).collect()
}

fn contents(input: &str) -> Vec<String> {
    contents_of(&lex(input).unwrap())
}

#[test]
fn greet_lexes_to_fifteen_tokens() {
    let tokens = lex("func greet(name: str): str { return name; }").unwrap();
    assert_eq!(tokens.len(), 15);
    assert!(matches!(tokens[0].token, TokenVariant::Keyword(Keyword::Func)));
    assert_eq!(tokens[0].pos, at(0, 0));
    match &tokens[1].token {
        TokenVariant::Ident(ident) => assert_eq!(ident.inner(), "greet"),
        _ => panic!("expected an identifier"),
    }
    assert_eq!(tokens[1].pos, at(0, 5));
    assert!(matches!(tokens[2].token, TokenVariant::Symbol(Symbol::LeftParen)));
    assert!(matches!(&tokens[3].token, TokenVariant::Ident(Ident::Ref("name"))));
    assert!(matches!(tokens[4].token, TokenVariant::Symbol(Symbol::Colon)));
    assert!(matches!(tokens[5].token, TokenVariant::Ty(Ty::Str)));
    assert!(matches!(tokens[6].token, TokenVariant::Symbol(Symbol::RightParen)));
    assert!(matches!(tokens[8].token, TokenVariant::Ty(Ty::Str)));
    assert!(matches!(tokens[9].token, TokenVariant::Symbol(Symbol::LeftBrace)));
    assert!(matches!(tokens[10].token, TokenVariant::Keyword(Keyword::Return)));
    assert!(matches!(tokens[12].token, TokenVariant::Symbol(Symbol::SemiColon)));
    assert!(matches!(tokens[13].token, TokenVariant::Symbol(Symbol::RightBrace)));
    assert!(tokens[14].is_eof());
    assert_eq!(tokens[14].pos, at(0, 43));
}

#[test]
fn empty_text_is_one_end_token() {
    let tokens = lex("").unwrap();
    assert_eq!(tokens.len(), 1);
    assert!(tokens[0].is_eof());
    assert_eq!(tokens[0].pos, at(0, 0));
}

#[test]
fn spaces_tabs_and_lines_move_the_cursor() {
    let tokens = lex(" \tx\n\n  y").unwrap();
    assert_eq!(tokens.len(), 3);
    assert_eq!(tokens[0].pos, at(0, 5));
    assert_eq!(tokens[1].pos, at(2, 2));
    assert_eq!(tokens[2].pos, at(2, 3));
}

#[test]
fn words_need_a_boundary() {
    assert_eq!(contents("i32x"), vec!["ident i32x", "eof"]);
    assert_eq!(contents("i32 x"), vec!["I32", "ident x", "eof"]);
    assert_eq!(contents("i32"), vec!["I32", "eof"]);
    assert_eq!(contents("function"), vec!["ident function", "eof"]);
    assert_eq!(contents("letter let"), vec!["ident letter", "Let", "eof"]);
    assert_eq!(contents("void_ void"), vec!["ident void_", "Void", "eof"]);
    assert_eq!(contents("_a1 b_2"), vec!["ident _a1", "ident b_2", "eof"]);
}

#[test]
fn every_symbol_is_read() {
    assert_eq!(
        contents("=(){},:;"),
        vec![
            "Equal",
            "LeftParen",
            "RightParen",
            "LeftBrace",
            "RightBrace",
            "Comma",
            "Colon",
            "SemiColon",
            "eof"
        ]
    );
}

#[test]
fn numbers_need_a_character_after_them() {
    assert_eq!(contents("12;"), vec!["int 12", "SemiColon", "eof"]);
    assert_eq!(contents("2147483647 "), vec!["int 2147483647", "eof"]);
    assert_eq!(lex("12").unwrap_err(), not_handled(0, 0));
    assert_eq!(lex("x 12").unwrap_err(), not_handled(0, 2));
}

#[test]
fn a_number_that_does_not_fit_is_not_handled() {
    assert_eq!(lex("2147483648 ").unwrap_err(), not_handled(0, 0));
    assert_eq!(lex("99999999999999999999999 ").unwrap_err(), not_handled(0, 0));
}

#[test]
fn strings_keep_their_text() {
    let tokens = lex("\"a b\" x").unwrap();
    assert!(matches!(tokens[0].token, TokenVariant::Literal(Literal::String("a b"))));
    assert_eq!(tokens[0].pos, at(0, 0));
    // The opening quote does not move the cursor.
    assert_eq!(tokens[1].pos, at(0, 5));
}

#[test]
fn a_backslash_keeps_a_quote_from_closing() {
    let tokens = lex("\"a\\\"b\"").unwrap();
    assert!(matches!(tokens[0].token, TokenVariant::Literal(Literal::String("a\\\"b"))));
    assert!(tokens[1].is_eof());
}

#[test]
fn a_string_may_span_lines() {
    let tokens = lex("\"a\nb\" x").unwrap();
    assert!(matches!(tokens[0].token, TokenVariant::Literal(Literal::String("a\nb"))));
    assert_eq!(tokens[1].pos, at(1, 3));
}

#[test]
fn an_open_string_is_not_handled_at_its_start() {
    assert_eq!(lex("x \"abc").unwrap_err(), not_handled(0, 2));
    assert_eq!(lex("\"").unwrap_err(), not_handled(0, 0));
}

#[test]
fn interpolated_strings_are_cut_into_segments() {
    assert_eq!(contents("`a${b}c`"), vec!["dyn [a] [\"ident b\"] [c]", "eof"]);
    assert_eq!(contents("`${f(1,x)}`"), {
        let inner = vec!["ident f", "LeftParen", "int 1", "Comma", "ident x", "RightParen"];
        vec![format!("dyn [] {:?} []", inner), String::from("eof")]
    });
    assert_eq!(contents("``"), vec!["dyn []", "eof"]);
    assert_eq!(contents("`$a`"), vec!["dyn [$a]", "eof"]);
    assert_eq!(contents("`a\\`b`"), vec!["dyn [a\\`b]", "eof"]);
    assert_eq!(contents("`${}`"), vec!["dyn [] [] []", "eof"]);
}

#[test]
fn interpolated_strings_nest() {
    assert_eq!(
        contents("`a${`b${c}`}`"),
        vec!["dyn [a] [\"dyn [b] [\\\"ident c\\\"] []\"] []", "eof"]
    );
}

#[test]
fn tokens_in_an_interpolated_string_have_places() {
    let tokens = lex("`ab${cd}`").unwrap();
    match &tokens[0].token {
        TokenVariant::Literal(Literal::DynString(segs)) => match &segs[1] {
            DynStringSeg::Insert(inner) => {
                assert_eq!(inner.len(), 1);
                assert_eq!(inner[0].pos, at(0, 4));
            }
            _ => panic!("expected an embedded expression"),
        },
        _ => panic!("expected an interpolated string"),
    }
    assert_eq!(tokens[1].pos, at(0, 8));
}

#[test]
fn an_open_interpolated_string_is_reported_at_its_start() {
    assert_eq!(lex("`abc").unwrap_err(), not_handled(0, 0));
    assert_eq!(lex("`a${b").unwrap_err(), not_handled(0, 0));
    assert_eq!(lex("`a$").unwrap_err(), not_handled(0, 0));
}

#[test]
fn a_broken_embedded_expression_is_reported_where_it_breaks() {
    // No token starts at the space inside the braces.
    assert_eq!(lex("`a${ b}`").unwrap_err(), not_handled(0, 3));
    assert_eq!(lex("`${x#}`").unwrap_err(), not_handled(0, 3));
}

#[test]
fn comments_yield_no_token() {
    assert_eq!(contents("a // b c\nd"), vec!["ident a", "ident d", "eof"]);
    assert_eq!(contents("a /* b */ c"), vec!["ident a", "ident c", "eof"]);
    assert_eq!(contents("a /* b /* c */ d */ e"), vec!["ident a", "ident e", "eof"]);
    assert_eq!(contents("/**/"), vec!["eof"]);
}

#[test]
fn a_line_comment_with_an_open_block_ends_with_the_block() {
    assert_eq!(contents("// a /* b\n c */ d"), vec!["ident d", "eof"]);
}

#[test]
fn comments_move_the_cursor_by_their_marks_only() {
    let tokens = lex("/* abc */ x").unwrap();
    assert_eq!(tokens[0].pos, at(0, 5));
    let tokens = lex("// abc\nx").unwrap();
    assert_eq!(tokens[0].pos, at(1, 0));
    let tokens = lex("/* a\n b */x").unwrap();
    assert_eq!(tokens[0].pos, at(1, 2));
}

#[test]
fn an_open_comment_is_not_handled_at_its_start() {
    assert_eq!(lex("x /* abc").unwrap_err(), not_handled(0, 2));
    assert_eq!(lex("// abc").unwrap_err(), not_handled(0, 0));
    assert_eq!(lex("/* a /* b */").unwrap_err(), not_handled(0, 0));
}

#[test]
fn what_no_lexer_knows_is_not_handled() {
    assert_eq!(lex("#").unwrap_err(), not_handled(0, 0));
    assert_eq!(lex("a\n  ?").unwrap_err(), not_handled(1, 2));
    assert_eq!(lex("/").unwrap_err(), not_handled(0, 0));
    assert_eq!(lex("é").unwrap_err(), not_handled(0, 0));
}

#[test]
fn texts_may_hold_any_characters() {
    let tokens = lex("\"é ü\" x").unwrap();
    assert!(matches!(tokens[0].token, TokenVariant::Literal(Literal::String("é ü"))));
    assert_eq!(tokens[1].pos, at(0, 5));
    assert_eq!(contents("/* é */ a"), vec!["ident a", "eof"]);
}

#[test]
fn more_space_between_tokens_changes_no_token() {
    let tight = "func f(a:i32):str{let x=`v${a}`;return \"s\";}";
    let loose = "\n func\tf (\n a : i32 )\n\n: str {\n\tlet x = `v${a}` ;\n  return \"s\" ; } \n";
    assert_eq!(contents(tight), contents(loose));
    assert_eq!(contents(tight).len(), 20);
    let commented = "func f(a:i32):str{let x=`v${a}`;/* c */return \"s\";}// end\n";
    assert_eq!(contents(tight), contents(commented));
}

#[test]
fn places_never_go_back() {
    let tokens = lex("func f() {\n  let a = 1;\n\treturn g(a, \"x\ny\");\n}\n").unwrap();
    for pair in tokens.windows(2) {
        assert!(pair[0].pos.at_or_before(&pair[1].pos));
        if pair[0].pos.line == pair[1].pos.line {
            assert!(pair[0].pos.col <= pair[1].pos.col);
        } else {
            assert!(pair[0].pos.line < pair[1].pos.line);
        }
    }
    assert_eq!(tokens[tokens.len() - 1].pos, at(5, 0));
}

#[test]
fn split_gives_the_rest_of_a_text() {
    assert_eq!(split("hello", 2), "llo");
    assert_eq!(split("hello", 0), "hello");
    assert_eq!(split("hello", 5), "");
    assert_eq!(split("hello", 9), "");
    assert_eq!(split("héllo", 2), "llo");
}

#[test]
fn identifiers_are_compared_by_their_text() {
    let borrowed = Ident::Ref("name");
    let owned = Ident::Owned(String::from("name"));
    assert!(borrowed == owned);
    assert!(borrowed.same(&owned));
    assert!(owned != Ident::Ref("other"));
    assert_eq!(owned.inner(), "name");
    assert!(matches!(owned.as_ref(), Ident::Ref("name")));
    assert!(matches!(owned.duplicate(), Ident::Owned(_)));
    assert!(!Ident::Ref("a").same(&Ident::Ref("b")));
}

#[test]
fn tokens_answer_what_they_are() {
    let tokens = lex("func (").unwrap();
    assert!(tokens[0].eq_keyword(Keyword::Func));
    assert!(!tokens[0].eq_keyword(Keyword::Let));
    assert!(!tokens[0].eq_symbol(Symbol::LeftParen));
    assert!(tokens[1].eq_symbol(Symbol::LeftParen));
    assert!(!tokens[1].eq_symbol(Symbol::RightParen));
    assert!(!tokens[1].is_eof());
    assert!(tokens[2].is_eof());
}

#[test]
fn places_are_ordered_by_line_then_column() {
    assert!(at(0, 5).at_or_before(&at(1, 0)));
    assert!(at(1, 0).at_or_before(&at(1, 0)));
    assert!(!at(1, 1).at_or_before(&at(1, 0)));
    assert!(!at(2, 0).at_or_before(&at(1, 9)));
    assert!(at(0, 5) < at(1, 0));
    assert!(at(1, 0) <= at(1, 0));
    assert!(at(1, 1) > at(1, 0));
    assert!(at(2, 0) >= at(1, 9));
    assert_eq!(at(3, 1).max(at(2, 7)), at(3, 1));
    let mut places = vec![at(2, 0), at(0, 3), at(1, 9), at(0, 1)];
    places.sort();
    assert_eq!(places, vec![at(0, 1), at(0, 3), at(1, 9), at(2, 0)]);
    assert_eq!(at(1, 2).later(at(0, 9)), at(1, 2));
    assert_eq!(at(1, 2).later(at(1, 3)), at(1, 3));
}

#[test]
fn a_source_is_read_by_characters() {
    let src = Source::new("héllo wörld");
    assert_eq!(src.len(), 11);
    assert_eq!(src.get(1), 'é');
    assert!(src.is_at(4, 'o'));
    assert!(!src.is_at(4, 'x'));
    assert!(!src.is_at(11, 'd'));
    assert_eq!(src.slice(6, 11), "wörld");
    assert_eq!(src.slice(3, 3), "");
    assert!(src.has_word(6, "wör"));
    assert!(!src.has_word(6, "wor"));
    assert!(!src.has_word(9, "ldx"));
    assert!(src.has_word(11, ""));
    assert!(src.has_whole_word(0, "héllo"));
    assert!(!src.has_whole_word(0, "hél"));
    assert!(src.has_whole_word(6, "wörld"));
}

#[test]
fn each_lexer_reads_its_own() {
    let src = Source::new("let x1 = 42; // c\nstr");
    let mut pos = at(3, 7);
    let (end, token) = Keyword::lex(&src, 0, &mut pos).unwrap();
    assert_eq!(end, 3);
    assert!(token.eq_keyword(Keyword::Let));
    assert_eq!(token.pos, at(3, 7));
    assert_eq!(pos, at(3, 10));

    let mut pos = at(0, 0);
    assert_eq!(Keyword::lex(&src, 4, &mut pos).unwrap_err(), not_handled(0, 0));
    assert_eq!(pos, at(0, 0));

    let (end, token) = Ident::lex(&src, 4, &mut pos).unwrap();
    assert_eq!(end, 6);
    assert!(matches!(&token.token, TokenVariant::Ident(Ident::Ref("x1"))));
    assert_eq!(pos, at(0, 2));
    assert!(Ident::lex(&src, 9, &mut pos).is_err());

    let (end, token) = Symbol::lex(&src, 7, &mut pos).unwrap();
    assert_eq!(end, 8);
    assert!(token.eq_symbol(Symbol::Equal));
    assert!(Symbol::lex(&src, 4, &mut pos).is_err());
    assert_eq!(Symbol::of(';'), Some(Symbol::SemiColon));
    assert_eq!(Symbol::of('x'), None);

    let mut pos = at(1, 1);
    let (end, token) = Literal::lex(&src, 9, &mut pos).unwrap();
    assert_eq!(end, 11);
    assert!(matches!(token.token, TokenVariant::Literal(Literal::Int(42))));
    assert_eq!(pos, at(1, 3));
    // The place reported is the one after the digits read.
    let digits = Source::new("123");
    assert_eq!(Literal::lex(&digits, 0, &mut pos).unwrap_err(), not_handled(1, 6));
    assert_eq!(pos, at(1, 3));

    let mut pos = at(0, 0);
    assert_eq!(Comment::lex(&src, 13, &mut pos).unwrap(), 18);
    assert_eq!(pos, at(1, 0));
    assert!(Comment::lex(&src, 0, &mut pos).is_err());

    let (end, token) = Ty::lex(&src, 18, &mut pos).unwrap();
    assert_eq!(end, 21);
    assert!(matches!(token.token, TokenVariant::Ty(Ty::Str)));
    assert!(Ty::lex(&src, 0, &mut pos).is_err());

    let (end, token) = Token::lex(&src, 21, &mut pos).unwrap();
    assert_eq!(end, 21);
    assert!(token.unwrap().is_eof());
    let (end, token) = Token::lex(&src, 13, &mut pos).unwrap();
    assert_eq!(end, 18);
    assert!(token.is_none());
}

#[test]
fn an_open_string_reports_where_the_text_ends() {
    let src = Source::new("\"ab\ncd");
    let mut pos = at(2, 5);
    assert_eq!(Literal::lex(&src, 0, &mut pos).unwrap_err(), not_handled(3, 2));
    assert_eq!(pos, at(2, 5));
    let src = Source::new("`ab${x}c");
    assert_eq!(Literal::lex(&src, 0, &mut pos).unwrap_err(), not_handled(2, 12));
    assert_eq!(pos, at(2, 5));
}

use lox_front::exprs::{AstPrinter, Expr, LiteralValue};
use lox_front::parser::Parser;
use lox_front::run;
use lox_front::scanner::Scanner;
use lox_front::tokens::{Token, TokenType};

fn scan(src: &str) -> Scanner {
    let mut scnr = Scanner::new(src.to_string());
    scnr.scan_tokens();
    scnr
}

#[test]
fn printer_test() {
    let li = Expr::Literal { literal: LiteralValue::Number("123".to_string()) };
    let t = Token {
        tok_type: TokenType::MINUS,
        lexeme: "-".to_string(),
        literal: "".to_string(),
        line: 1,
    };
    let unary_op = Box::new(Expr::Unary { operator: t, right: Box::new(li) });

    let mul = Token {
        tok_type: TokenType::STAR,
        lexeme: "*".to_string(),
        literal: "".to_string(),
        line: 1,
    };

    let grp = Box::new(Expr::Grouping {
        expression: Box::new(Expr::Literal {
            literal: LiteralValue::Number("45.67".to_string()),
        }),
    });

    let bin_expr = Expr::Binary { left: unary_op, operator: mul, right: grp };

    let mut printer = AstPrinter;
    let txt = printer.print(&bin_expr);
    println!("{}", txt);
    assert_eq!(txt, "(* (- 123) (Group 45.67))");
}

#[test]
fn internal() {
    let scnr = Scanner::new("".to_string());

    let mut tt = scnr.resolve_identifier("and");
    assert_eq!(TokenType::AND, tt);

    tt = scnr.resolve_identifier("class");
    assert_eq!(TokenType::CLASS, tt);

    tt = scnr.resolve_identifier("else");
    assert_eq!(TokenType::ELSE, tt);
    // etc
}

#[test]
fn check_scanner() {
    let mut scnr = Scanner::new("-123 * 45.67".to_string());
    scnr.scan_tokens();
    for tt in scnr.tokens {
        println!("{:?}", tt)
    }
}

#[test]
fn trivia_yields_only_the_sentinel() {
    let scnr = scan("  \t\r\n  // a comment to the end of the line\n// another");
    assert_eq!(scnr.tokens.len(), 1);
    assert_eq!(scnr.tokens[0].tok_type, TokenType::EOF);
    assert_eq!(scnr.tokens[0].lexeme, "");
    assert!(scnr.diags.is_empty());
}

#[test]
fn combined_operators_scan_as_one_token() {
    let cases = [
        ("!=", TokenType::BANG_EQUAL),
        ("==", TokenType::EQUAL_EQUAL),
        ("<=", TokenType::LESS_EQUAL),
        (">=", TokenType::GREATER_EQUAL),
    ];
    for (src, kind) in cases {
        let scnr = scan(src);
        assert_eq!(scnr.tokens.len(), 2, "one operator token and the sentinel for {}", src);
        assert_eq!(scnr.tokens[0].tok_type, kind);
        assert_eq!(scnr.tokens[0].lexeme, src);
    }
}

#[test]
fn lone_candidate_scans_as_single_token() {
    let scnr = scan("!7");
    assert_eq!(scnr.tokens.len(), 3);
    assert_eq!(scnr.tokens[0].tok_type, TokenType::BANG);
    assert_eq!(scnr.tokens[0].lexeme, "!");
    assert_eq!(scnr.tokens[1].tok_type, TokenType::NUMBER);
}

#[test]
fn number_literals() {
    let scnr = scan("123");
    assert_eq!(scnr.tokens[0].tok_type, TokenType::NUMBER);
    assert_eq!(scnr.tokens[0].literal, "123");

    let scnr = scan("45.67");
    assert_eq!(scnr.tokens[0].tok_type, TokenType::NUMBER);
    assert_eq!(scnr.tokens[0].literal, "45.67");
}

#[test]
fn dangling_dot_is_not_part_of_the_number() {
    let scnr = scan("45.");
    assert_eq!(scnr.tokens.len(), 3);
    assert_eq!(scnr.tokens[0].tok_type, TokenType::NUMBER);
    assert_eq!(scnr.tokens[0].literal, "45");
    assert_eq!(scnr.tokens[1].tok_type, TokenType::DOT);
    assert_eq!(scnr.tokens[1].lexeme, ".");
}

#[test]
fn string_literal_is_the_text_between_the_quotes() {
    let scnr = scan("\"abc\"");
    assert_eq!(scnr.tokens.len(), 2);
    assert_eq!(scnr.tokens[0].tok_type, TokenType::STRING);
    assert_eq!(scnr.tokens[0].literal, "abc");
    assert_eq!(scnr.tokens[0].lexeme, "\"abc\"");
    assert!(scnr.diags.is_empty());
}

#[test]
fn unterminated_string_sets_the_failure_signal() {
    let scnr = scan("\"abc");
    assert_eq!(scnr.tokens.len(), 1, "no string token, only the sentinel");
    assert_eq!(scnr.tokens[0].tok_type, TokenType::EOF);
    assert_eq!(scnr.diags.len(), 1);
    assert_eq!(scnr.diags[0].msg, "Unterminated string.");
    assert!(scnr.had_error());
}

#[test]
fn a_clean_scan_raises_no_failure_signal() {
    let scnr = scan("1 + 2");
    assert!(!scnr.had_error());
}

#[test]
fn unexpected_character_is_recorded_and_scanning_goes_on() {
    let scnr = scan("@ 1");
    assert_eq!(scnr.diags.len(), 1);
    assert_eq!(scnr.diags[0].msg, "Unexpected token.");
    assert_eq!(scnr.tokens.len(), 2);
    assert_eq!(scnr.tokens[0].tok_type, TokenType::NUMBER);
}

#[test]
fn keyword_versus_identifier() {
    let scnr = scan("for");
    assert_eq!(scnr.tokens[0].tok_type, TokenType::FOR);

    let scnr = scan("forest");
    assert_eq!(scnr.tokens[0].tok_type, TokenType::IDENTIFIER);
    assert_eq!(scnr.tokens[0].lexeme, "forest");
}

#[test]
fn every_keyword_resolves() {
    let scnr = Scanner::new("".to_string());
    let cases = [
        ("and", TokenType::AND),
        ("class", TokenType::CLASS),
        ("else", TokenType::ELSE),
        ("false", TokenType::FALSE),
        ("for", TokenType::FOR),
        ("fun", TokenType::FUN),
        ("if", TokenType::IF),
        ("nil", TokenType::NIL),
        ("or", TokenType::OR),
        ("print", TokenType::PRINT),
        ("return", TokenType::RETURN),
        ("super", TokenType::SUPER),
        ("this", TokenType::THIS),
        ("true", TokenType::TRUE),
        ("var", TokenType::VAR),
        ("while", TokenType::WHILE),
    ];
    for (word, kind) in cases {
        assert_eq!(scnr.resolve_identifier(word), kind);
    }
    assert_eq!(scnr.resolve_identifier("loop"), TokenType::UNKNOWN);
}

#[test]
fn line_counter_follows_newlines() {
    let scnr = scan("1\n2\n\n3");
    assert_eq!(scnr.tokens[0].line, 0);
    assert_eq!(scnr.tokens[1].line, 1);
    assert_eq!(scnr.tokens[2].line, 3);
}

#[test]
fn unary_binds_tighter_than_factor() {
    let scnr = scan("-123 * 45.67");
    let mut p = Parser::new(scnr.tokens);
    let expr = p.expression().expect("a valid expression");
    match &expr {
        Expr::Binary { left, operator, right } => {
            assert_eq!(operator.tok_type, TokenType::STAR);
            match &**left {
                Expr::Unary { operator, right } => {
                    assert_eq!(operator.tok_type, TokenType::MINUS);
                    match &**right {
                        Expr::Literal { literal: LiteralValue::Number(n) } => {
                            assert_eq!(n, "123")
                        },
                        _ => panic!("expected a number literal under the unary minus"),
                    }
                },
                _ => panic!("expected a unary expression on the left"),
            }
            match &**right {
                Expr::Literal { literal: LiteralValue::Number(n) } => assert_eq!(n, "45.67"),
                _ => panic!("expected a number literal on the right"),
            }
        },
        _ => panic!("expected a binary expression"),
    }
    let mut printer = AstPrinter;
    assert_eq!(printer.print(&expr), "(* (- 123) 45.67)");
}

#[test]
fn term_level_folds_to_the_left() {
    let out = run("1 - 2 - 3".to_string());
    assert_eq!(out.rendering.expect("a valid expression"), "(- (- 1 2) 3)");
}

#[test]
fn grouping_shapes_the_tree() {
    let scnr = scan("(1+2)*3");
    let mut p = Parser::new(scnr.tokens);
    let expr = p.expression().expect("a valid expression");
    match &expr {
        Expr::Binary { left, operator, right } => {
            assert_eq!(operator.tok_type, TokenType::STAR);
            match &**left {
                Expr::Grouping { expression } => match &**expression {
                    Expr::Binary { operator, .. } => {
                        assert_eq!(operator.tok_type, TokenType::PLUS)
                    },
                    _ => panic!("expected the sum inside the grouping"),
                },
                _ => panic!("expected a grouping on the left"),
            }
            match &**right {
                Expr::Literal { literal: LiteralValue::Number(n) } => assert_eq!(n, "3"),
                _ => panic!("expected a number literal on the right"),
            }
        },
        _ => panic!("expected a binary expression"),
    }
    let mut printer = AstPrinter;
    assert_eq!(printer.print(&expr), "(* (Group (+ 1 2)) 3)");
}

#[test]
fn missing_closing_parenthesis_is_a_fatal_error() {
    let scnr = scan("(1+2");
    let mut p = Parser::new(scnr.tokens);
    let err = p.expression().expect_err("the parse must fail");
    assert_eq!(err.msg, "Expect ')' after expression.");
    assert_eq!(err.token.tok_type, TokenType::EOF);
}

#[test]
fn no_primary_production_is_a_fatal_error() {
    let scnr = scan("+ 1");
    let mut p = Parser::new(scnr.tokens);
    let err = p.expression().expect_err("the parse must fail");
    assert_eq!(err.msg, "Expected expression");
    assert_eq!(err.token.tok_type, TokenType::PLUS);
}

#[test]
fn numbers_render_canonically() {
    let out = run("007.50 + 000 + 2.000".to_string());
    assert_eq!(out.rendering.expect("a valid expression"), "(+ (+ 7.5 0) 2)");
    assert!(out.diags.is_empty());
}

#[test]
fn doubled_minus_nests_to_the_right() {
    let out = run("--1".to_string());
    assert_eq!(out.rendering.expect("a valid expression"), "(- (- 1))");
}

#[test]
fn booleans_null_and_strings_render_as_their_text() {
    let out = run("(true == false) != nil".to_string());
    assert_eq!(
        out.rendering.expect("a valid expression"),
        "(!= (Group (== true false)) Null)"
    );

    let out = run("\"east\" + \"west\"".to_string());
    assert_eq!(out.rendering.expect("a valid expression"), "(+ east west)");
}

#[test]
fn comparisons_parse_between_terms() {
    let out = run("1 + 2 <= 3 / 4".to_string());
    assert_eq!(out.rendering.expect("a valid expression"), "(<= (+ 1 2) (/ 3 4))");
}

#[test]
fn run_reports_scan_diagnostics() {
    let out = run("\"open 1".to_string());
    assert_eq!(out.diags.len(), 1);
    assert_eq!(out.diags[0].msg, "Unterminated string.");
    assert!(out.rendering.is_err(), "nothing scans to a primary expression");
}

#[test]
fn strings_keep_embedded_newlines_and_count_lines() {
    let scnr = scan("\"a\nb\" 9");
    assert_eq!(scnr.tokens[0].tok_type, TokenType::STRING);
    assert_eq!(scnr.tokens[0].literal, "a\nb");
    assert_eq!(scnr.tokens[0].line, 1, "the string token carries the line it ends on");
    assert_eq!(scnr.tokens[1].line, 1);
}

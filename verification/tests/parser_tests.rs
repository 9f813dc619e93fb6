use tinyscript::lexer::lexer::{Lexer, Token};
use tinyscript::parser::parser::{ASTNode, Parser};

fn tokens_of(source: &str) -> Vec<Token> {
    let mut lexer = Lexer::new(source.to_string());
    let mut tokens = Vec::new();
    loop {
        let token = lexer.get_next_token();
        let done = token == Token::EOF;
        tokens.push(token);
        if done {
            return tokens;
        }
    }
}

fn parse(source: &str) -> Result<ASTNode, String> {
    Parser::new(tokens_of(source)).parse_program()
}

fn statements(source: &str) -> Vec<ASTNode> {
    match parse(source) {
        Ok(ASTNode::StmtList(list)) => list,
        other => panic!("no statement list: {:?}", other),
    }
}

fn name(text: &str) -> Box<ASTNode> {
    Box::new(ASTNode::Identifier(text.to_string()))
}

fn num(value: i64) -> Box<ASTNode> {
    Box::new(ASTNode::Integer(value))
}

fn op(left: Box<ASTNode>, operator: Token, right: Box<ASTNode>) -> Box<ASTNode> {
    Box::new(ASTNode::BinaryOp(left, operator, right))
}

fn expr_stmt(expr: Box<ASTNode>) -> ASTNode {
    ASTNode::ExprStmt(expr)
}

#[test]
fn empty_program() {
    assert_eq!(parse(""), Ok(ASTNode::StmtList(vec![])));
    assert_eq!(Parser::new(vec![]).parse_program(), Ok(ASTNode::StmtList(vec![])));
    assert_eq!(
        Parser::new(vec![Token::EOF]).parse_program(),
        Ok(ASTNode::StmtList(vec![]))
    );
}

#[test]
fn let_binding() {
    assert_eq!(
        statements("let x = 42;"),
        vec![ASTNode::LetStmt("x".to_string(), num(42))]
    );
}

#[test]
fn tokens_without_end_marker_parse_alike() {
    let mut tokens = tokens_of("let x = 42;");
    assert_eq!(tokens.pop(), Some(Token::EOF));
    assert_eq!(
        Parser::new(tokens).parse_program(),
        Ok(ASTNode::StmtList(vec![ASTNode::LetStmt("x".to_string(), num(42))]))
    );
}

#[test]
fn if_with_else() {
    let list = statements("if (x > 10) { return 1; } else { return 0; }");
    assert_eq!(
        list,
        vec![ASTNode::IfStmt(
            op(name("x"), Token::GreaterThan, num(10)),
            Box::new(ASTNode::Block(vec![ASTNode::ReturnStmt(num(1))])),
            Some(Box::new(ASTNode::Block(vec![ASTNode::ReturnStmt(num(0))]))),
        )]
    );
}

#[test]
fn if_without_else() {
    let list = statements("if (x) y; z;");
    assert_eq!(
        list,
        vec![
            ASTNode::IfStmt(name("x"), Box::new(expr_stmt(name("y"))), None),
            expr_stmt(name("z")),
        ]
    );
}

#[test]
fn else_binds_to_the_nearest_if() {
    let list = statements("if (a) if (b) x; else y;");
    assert_eq!(
        list,
        vec![ASTNode::IfStmt(
            name("a"),
            Box::new(ASTNode::IfStmt(
                name("b"),
                Box::new(expr_stmt(name("x"))),
                Some(Box::new(expr_stmt(name("y")))),
            )),
            None,
        )]
    );
}

#[test]
fn while_statement() {
    let list = statements("while (i < 10) { let j = i; }");
    assert_eq!(
        list,
        vec![ASTNode::WhileStmt(
            op(name("i"), Token::LessThan, num(10)),
            Box::new(ASTNode::Block(vec![ASTNode::LetStmt("j".to_string(), name("i"))])),
        )]
    );
}

#[test]
fn return_statement() {
    assert_eq!(
        statements("return \"done\";"),
        vec![ASTNode::ReturnStmt(Box::new(ASTNode::StringLiteral(
            "done".to_string()
        )))]
    );
}

#[test]
fn nested_blocks() {
    assert_eq!(
        statements("{ { } { x; } }"),
        vec![ASTNode::Block(vec![
            ASTNode::Block(vec![]),
            ASTNode::Block(vec![expr_stmt(name("x"))]),
        ])]
    );
}

#[test]
fn product_binds_tighter_than_sum() {
    assert_eq!(
        statements("1 + 2 * 3;"),
        vec![expr_stmt(op(
            num(1),
            Token::Plus,
            op(num(2), Token::Star, num(3))
        ))]
    );
    assert_eq!(
        statements("1 * 2 + 3;"),
        vec![expr_stmt(op(
            op(num(1), Token::Star, num(2)),
            Token::Plus,
            num(3)
        ))]
    );
}

#[test]
fn sums_and_comparisons_share_a_tier() {
    assert_eq!(
        statements("a + b > c;"),
        vec![expr_stmt(op(
            op(name("a"), Token::Plus, name("b")),
            Token::GreaterThan,
            name("c")
        ))]
    );
    assert_eq!(
        statements("a > b + c;"),
        vec![expr_stmt(op(
            op(name("a"), Token::GreaterThan, name("b")),
            Token::Plus,
            name("c")
        ))]
    );
    assert_eq!(
        statements("a > b > c;"),
        vec![expr_stmt(op(
            op(name("a"), Token::GreaterThan, name("b")),
            Token::GreaterThan,
            name("c")
        ))]
    );
}

#[test]
fn operators_group_to_the_left() {
    assert_eq!(
        statements("a - b - c;"),
        vec![expr_stmt(op(
            op(name("a"), Token::Minus, name("b")),
            Token::Minus,
            name("c")
        ))]
    );
    assert_eq!(
        statements("a / b * c;"),
        vec![expr_stmt(op(
            op(name("a"), Token::Slash, name("b")),
            Token::Star,
            name("c")
        ))]
    );
}

#[test]
fn equality_and_inequality_operators() {
    assert_eq!(
        statements("a = b ! c;"),
        vec![expr_stmt(op(
            op(name("a"), Token::Equal, name("b")),
            Token::NotEqual,
            name("c")
        ))]
    );
}

#[test]
fn brackets_group_without_a_node_of_their_own() {
    assert_eq!(
        statements("(1 + 2) * 3;"),
        vec![expr_stmt(op(
            op(num(1), Token::Plus, num(2)),
            Token::Star,
            num(3)
        ))]
    );
    assert_eq!(statements("((x));"), vec![expr_stmt(name("x"))]);
}

#[test]
fn statement_list_stops_at_a_closing_brace() {
    assert_eq!(
        parse("x; } y;"),
        Ok(ASTNode::StmtList(vec![expr_stmt(name("x"))]))
    );
    assert_eq!(parse("}"), Ok(ASTNode::StmtList(vec![])));
}

#[test]
fn parsing_goes_on_where_it_stopped() {
    let mut parser = Parser::new(tokens_of("x; } y;"));
    assert_eq!(
        parser.parse_program(),
        Ok(ASTNode::StmtList(vec![expr_stmt(name("x"))]))
    );
    assert_eq!(parser.parse_program(), Ok(ASTNode::StmtList(vec![])));
}

#[test]
fn missing_semicolon() {
    assert_eq!(
        parse("let x = 42"),
        Err("Expected Semicolon, found EOF".to_string())
    );
    assert_eq!(
        parse("x y;"),
        Err("Expected Semicolon, found Identifier(\"y\")".to_string())
    );
    assert_eq!(
        parse("return 1 2;"),
        Err("Expected Semicolon, found Integer(2)".to_string())
    );
    assert_eq!(
        parse("x \"s\";"),
        Err("Expected Semicolon, found StringLiteral(\"s\")".to_string())
    );
}

#[test]
fn missing_name_after_let() {
    assert_eq!(
        parse("let = 1;"),
        Err("Expected identifier, found Equal".to_string())
    );
    assert_eq!(
        parse("let 5 = 1;"),
        Err("Expected identifier, found Integer(5)".to_string())
    );
    assert_eq!(
        parse("let \"x\" = 1;"),
        Err("Expected identifier, found StringLiteral(\"x\")".to_string())
    );
    assert_eq!(
        parse("let let = 1;"),
        Err("Expected identifier, found Let".to_string())
    );
    assert_eq!(parse("let"), Err("Expected identifier, found EOF".to_string()));
    assert_eq!(
        parse("let x = 1; let = 2;"),
        Err("Expected identifier, found Equal".to_string())
    );
}

#[test]
fn missing_equals_after_name() {
    assert_eq!(
        parse("let x 1;"),
        Err("Expected Equal, found Integer(1)".to_string())
    );
}

#[test]
fn missing_brackets_round_a_condition() {
    assert_eq!(
        parse("if x { }"),
        Err("Expected LParen, found Identifier(\"x\")".to_string())
    );
    assert_eq!(
        parse("while (x { }"),
        Err("Expected RParen, found LBrace".to_string())
    );
    assert_eq!(
        parse("(1 + 2;"),
        Err("Expected RParen, found Semicolon".to_string())
    );
}

#[test]
fn token_that_begins_no_operand() {
    let cases = [
        ("+;", "Plus"),
        ("x + ;", "Semicolon"),
        ("let x = ;", "Semicolon"),
        ("return ;", "Semicolon"),
        ("if () x;", "RParen"),
        (")", "RParen"),
        ("1 * * 2;", "Star"),
        ("fn", "Fn"),
        (",", "Comma"),
        ("x = let;", "Let"),
        ("1 +", "EOF"),
        ("(", "EOF"),
    ];
    for (source, found) in cases {
        assert_eq!(
            parse(source),
            Err(format!("Unexpected token in factor: {}", found))
        );
    }
}

#[test]
fn block_left_open() {
    assert_eq!(
        parse("{ x;"),
        Err("Unexpected token in factor: EOF".to_string())
    );
    assert_eq!(parse("{"), Err("Unexpected token in factor: EOF".to_string()));
    assert_eq!(
        parse("if (x) { return 1; "),
        Err("Unexpected token in factor: EOF".to_string())
    );
    let mut open = tokens_of("{ x;");
    assert_eq!(open.pop(), Some(Token::EOF));
    assert_eq!(
        Parser::new(open).parse_program(),
        Err("Unexpected token in factor: EOF".to_string())
    );
}

#[test]
fn else_without_if() {
    assert_eq!(
        parse("else x;"),
        Err("Unexpected token in factor: Else".to_string())
    );
}

#[test]
fn first_error_ends_the_parse() {
    assert_eq!(
        parse("let = 1; x y"),
        Err("Expected identifier, found Equal".to_string())
    );
    assert_eq!(
        parse("x y; let = 1;"),
        Err("Expected Semicolon, found Identifier(\"y\")".to_string())
    );
}

#[test]
fn parser_stays_at_the_offending_token() {
    let mut parser = Parser::new(tokens_of("x y;"));
    assert_eq!(
        parser.parse_program(),
        Err("Expected Semicolon, found Identifier(\"y\")".to_string())
    );
    assert_eq!(
        parser.parse_program(),
        Ok(ASTNode::StmtList(vec![expr_stmt(name("y"))]))
    );
}

#[test]
fn two_parses_of_the_same_tokens_agree() {
    let sources = [
        "",
        "let x = 42;",
        "if (x > 10) { return 1; } else { return 0; }",
        "while (a < b) { let a = a + 1 * 2; { b; } }",
        "let x = ;",
        "x y",
        "{ x;",
    ];
    for source in sources {
        let first = Parser::new(tokens_of(source)).parse_program();
        let second = Parser::new(tokens_of(source)).parse_program();
        assert_eq!(first, second);
    }
}

#[test]
fn sample_program() {
    let source = "let x = 42; if (x > 10) { let y = x + 5; print(y); }";
    assert_eq!(
        parse(source),
        Err("Expected Semicolon, found LParen".to_string())
    );
    let list = statements("let x = 42; if (x > 10) { let y = x + 5; y; }");
    assert_eq!(
        list,
        vec![
            ASTNode::LetStmt("x".to_string(), num(42)),
            ASTNode::IfStmt(
                op(name("x"), Token::GreaterThan, num(10)),
                Box::new(ASTNode::Block(vec![
                    ASTNode::LetStmt("y".to_string(), op(name("x"), Token::Plus, num(5))),
                    expr_stmt(name("y")),
                ])),
                None,
            ),
        ]
    );
}

#[test]
fn tree_text_is_its_debug_form() {
    let sources = [
        "",
        "let x = 42;",
        "let s = \"a \\ b\";",
        "if (x > 10) { return 1; } else { return 0; }",
        "if (x) y;",
        "while (a < b) { let a = a + 1 * 2; { } { b; c; d; } }",
        "return (1 - 2) / 3 = 4 ! 5;",
    ];
    for source in sources {
        let tree = parse(source).unwrap();
        let mut text = String::from("tree: ");
        tree.push_text(&mut text);
        assert_eq!(text, format!("tree: {:?}", tree));
    }
    let program = ASTNode::Program(vec![ASTNode::Integer(-7), ASTNode::Program(vec![])]);
    let mut text = String::new();
    program.push_text(&mut text);
    assert_eq!(text, "Program([Integer(-7), Program([])])");
}

use tinyscript::lexer::lexer::{Lexer, Token};
use tinyscript::parser::parser::{ASTNode, Parser};
use tinyscript::typecheck::typecheck::{SemanticAnalyzer, SymbolEntry, SymbolTable, Type};

fn program(source: &str) -> Vec<ASTNode> {
    let mut lexer = Lexer::new(source.to_string());
    let mut tokens = Vec::new();
    loop {
        let token = lexer.get_next_token();
        if token == Token::EOF {
            break;
        }
        tokens.push(token);
    }
    match Parser::new(tokens).parse_program() {
        Ok(ASTNode::StmtList(list)) => list,
        other => panic!("no statement list: {:?}", other),
    }
}

fn check_in(analyzer: &mut SemanticAnalyzer, source: &str) -> Result<Type, String> {
    let mut last = Ok(Type::Boolean);
    for statement in program(source) {
        last = analyzer.check_types(&statement);
        if last.is_err() {
            return last;
        }
    }
    last
}

fn check(source: &str) -> Result<Type, String> {
    check_in(&mut SemanticAnalyzer::new(), source)
}

fn fails(source: &str, message: &str) {
    assert_eq!(check(source), Err(message.to_string()));
}

#[test]
fn literals_have_their_types() {
    assert_eq!(check("42;"), Ok(Type::Integer));
    assert_eq!(check("\"text\";"), Ok(Type::String));
    let mut analyzer = SemanticAnalyzer::new();
    assert_eq!(analyzer.check_types(&ASTNode::Integer(-1)), Ok(Type::Integer));
    assert_eq!(
        analyzer.check_types(&ASTNode::StringLiteral(String::new())),
        Ok(Type::String)
    );
}

#[test]
fn identifier_has_its_declared_type() {
    assert_eq!(check("let x = 1; x;"), Ok(Type::Integer));
    assert_eq!(check("let s = \"a\"; s;"), Ok(Type::String));
    assert_eq!(check("let b = 1 < 2; b;"), Ok(Type::Boolean));
}

#[test]
fn undeclared_identifier() {
    fails("x;", "Undeclared variable: x");
    fails("let x = y;", "Undeclared variable: y");
    fails("let x = x;", "Undeclared variable: x");
    fails("let a = 1; a + b_2;", "Undeclared variable: b_2");
}

#[test]
fn arithmetic_takes_integers() {
    assert_eq!(check("1 + 2;"), Ok(Type::Integer));
    assert_eq!(check("1 - 2;"), Ok(Type::Integer));
    assert_eq!(check("1 * 2;"), Ok(Type::Integer));
    assert_eq!(check("1 / 2;"), Ok(Type::Integer));
    assert_eq!(check("let x = 3; (x + 1) * (x - 1) / 2;"), Ok(Type::Integer));
}

#[test]
fn integer_plus_string_is_incompatible() {
    fails(
        "let x = 1; let y = \"a\"; x + y;",
        "Type error: Integer and String are not compatible with Plus",
    );
}

#[test]
fn arithmetic_on_other_types_is_incompatible() {
    fails(
        "\"a\" - 1;",
        "Type error: String and Integer are not compatible with Minus",
    );
    fails(
        "\"a\" * \"b\";",
        "Type error: String and String are not compatible with Star",
    );
    fails(
        "(1 < 2) / 3;",
        "Type error: Boolean and Integer are not compatible with Slash",
    );
    fails(
        "1 + (1 = 1);",
        "Type error: Integer and Boolean are not compatible with Plus",
    );
}

#[test]
fn comparison_takes_two_of_a_kind() {
    assert_eq!(check("1 < 2;"), Ok(Type::Boolean));
    assert_eq!(check("1 > 2;"), Ok(Type::Boolean));
    assert_eq!(check("1 = 2;"), Ok(Type::Boolean));
    assert_eq!(check("1 ! 2;"), Ok(Type::Boolean));
    assert_eq!(check("\"a\" = \"b\";"), Ok(Type::Boolean));
    assert_eq!(check("\"a\" < \"b\";"), Ok(Type::Boolean));
    assert_eq!(check("(1 < 2) = (3 > 4);"), Ok(Type::Boolean));
}

#[test]
fn comparison_of_different_types() {
    fails(
        "1 = \"a\";",
        "Type error: Integer and String cannot be compared with Equal",
    );
    fails(
        "\"a\" ! 1;",
        "Type error: String and Integer cannot be compared with NotEqual",
    );
    fails(
        "(1 < 2) < 3;",
        "Type error: Boolean and Integer cannot be compared with LessThan",
    );
    fails(
        "1 > 2 > 3;",
        "Type error: Boolean and Integer cannot be compared with GreaterThan",
    );
}

#[test]
fn unknown_binary_operator() {
    let mut analyzer = SemanticAnalyzer::new();
    let node = ASTNode::BinaryOp(
        Box::new(ASTNode::Integer(1)),
        Token::Comma,
        Box::new(ASTNode::Integer(2)),
    );
    assert_eq!(
        analyzer.check_types(&node),
        Err("Unknown binary operator: Comma".to_string())
    );
    let named = ASTNode::BinaryOp(
        Box::new(ASTNode::Integer(1)),
        Token::Identifier("plus".to_string()),
        Box::new(ASTNode::Integer(2)),
    );
    assert_eq!(
        analyzer.check_types(&named),
        Err("Unknown binary operator: Identifier(\"plus\")".to_string())
    );
}

#[test]
fn left_operand_is_checked_first() {
    fails("a + b;", "Undeclared variable: a");
    fails("(1 + \"x\") + b;", "Type error: Integer and String are not compatible with Plus");
    let mut analyzer = SemanticAnalyzer::new();
    let node = ASTNode::BinaryOp(
        Box::new(ASTNode::Identifier("a".to_string())),
        Token::Comma,
        Box::new(ASTNode::Identifier("b".to_string())),
    );
    assert_eq!(
        analyzer.check_types(&node),
        Err("Undeclared variable: a".to_string())
    );
}

#[test]
fn let_has_the_type_of_its_initializer() {
    assert_eq!(check("let x = 1;"), Ok(Type::Integer));
    assert_eq!(check("let x = \"a\";"), Ok(Type::String));
    assert_eq!(check("let x = 1 = 2;"), Ok(Type::Boolean));
}

#[test]
fn duplicate_declaration_in_one_scope() {
    fails("let x = 5; let x = 6;", "Symbol 'x' is already defined");
    fails("let x = 5; let x = \"a\";", "Symbol 'x' is already defined");
    fails("{ let y = 1; let y = 2; }", "Symbol 'y' is already defined");
}

#[test]
fn shadowing_in_a_nested_block() {
    assert_eq!(check("let x = 5; { let x = 6; }"), Ok(Type::Boolean));
    assert_eq!(check("let x = 5; { let x = \"a\"; x = \"b\"; }"), Ok(Type::Boolean));
    assert_eq!(check("let x = 5; { let x = \"a\"; } x + 1;"), Ok(Type::Integer));
    assert_eq!(check("let x = 5; { { let x = 1 < 2; if (x) { } } }"), Ok(Type::Boolean));
}

#[test]
fn inner_scope_sees_outer_declarations() {
    assert_eq!(check("let x = 5; { { x + 1; } }"), Ok(Type::Boolean));
    assert_eq!(check("let x = 5; { let y = x; { y * x; } }"), Ok(Type::Boolean));
}

#[test]
fn declarations_of_a_block_end_with_it() {
    fails("{ let y = 1; } y;", "Undeclared variable: y");
    assert_eq!(check("{ let y = 1; } let y = \"a\"; y;"), Ok(Type::String));
    assert_eq!(check("{ let y = 1; } { let y = 2; }"), Ok(Type::Boolean));
}

#[test]
fn if_condition_must_be_boolean() {
    fails("if (1) { }", "Condition of if statement must be boolean");
    fails("if (\"a\") { }", "Condition of if statement must be boolean");
    fails("let x = 1; if (x + 1) x;", "Condition of if statement must be boolean");
}

#[test]
fn if_checks_condition_then_branches() {
    assert_eq!(check("if (1 < 2) { } else { }"), Ok(Type::Boolean));
    assert_eq!(check("if (1 < 2) 3;"), Ok(Type::Boolean));
    fails("if (a) b; else c;", "Undeclared variable: a");
    fails("if (1 < 2) b; else c;", "Undeclared variable: b");
    fails("if (1 < 2) 1; else c;", "Undeclared variable: c");
    fails(
        "if (1) { 1 + \"a\"; }",
        "Condition of if statement must be boolean",
    );
}

#[test]
fn branch_without_block_declares_in_the_current_scope() {
    assert_eq!(check("if (1 < 2) let x = 1; x;"), Ok(Type::Integer));
    fails(
        "if (1 < 2) let x = 1; else let x = 2;",
        "Symbol 'x' is already defined",
    );
}

#[test]
fn while_condition_must_be_boolean() {
    fails("while (1) { }", "Condition of while statement must be boolean");
    fails("while (\"a\") 1;", "Condition of while statement must be boolean");
    assert_eq!(check("let i = 0; while (i < 10) { let j = i + 1; }"), Ok(Type::Boolean));
    fails("while (1 < 2) { x; }", "Undeclared variable: x");
}

#[test]
fn return_has_the_type_of_its_expression() {
    assert_eq!(check("return 1;"), Ok(Type::Integer));
    assert_eq!(check("return \"a\";"), Ok(Type::String));
    assert_eq!(check("return 1 < 2;"), Ok(Type::Boolean));
    fails("return x;", "Undeclared variable: x");
}

#[test]
fn block_is_boolean() {
    assert_eq!(check("{ }"), Ok(Type::Boolean));
    assert_eq!(check("{ 1; \"a\"; }"), Ok(Type::Boolean));
}

#[test]
fn first_violation_is_reported() {
    fails("{ a; b; }", "Undeclared variable: a");
    fails("{ 1; b; c; }", "Undeclared variable: b");
}

#[test]
fn statement_list_has_no_rule() {
    let mut analyzer = SemanticAnalyzer::new();
    let list = ASTNode::StmtList(vec![ASTNode::LetStmt(
        "x".to_string(),
        Box::new(ASTNode::Integer(1)),
    )]);
    assert_eq!(
        analyzer.check_types(&list),
        Err("Unknown AST node type: StmtList([LetStmt(\"x\", Integer(1))])".to_string())
    );
    assert_eq!(analyzer.lookup_variable("x"), None);
    let empty = ASTNode::Program(vec![]);
    assert_eq!(
        analyzer.check_types(&empty),
        Err("Unknown AST node type: Program([])".to_string())
    );
}

#[test]
fn unknown_node_message_shows_the_tree() {
    let source = "let s = \"q\"; if (1 < 2) { return s; } else { while (a ! b) c; } if (x) y;";
    let mut parts = program(source);
    parts.push(ASTNode::StringLiteral("a \"b\" \\ c\n".to_string()));
    parts.push(ASTNode::Identifier("caf\u{e9}".to_string()));
    let list = ASTNode::Program(parts);
    let mut analyzer = SemanticAnalyzer::new();
    assert_eq!(
        analyzer.check_types(&list),
        Err(format!("Unknown AST node type: {:?}", list))
    );
}

#[test]
fn block_closes_its_scope_after_a_violation() {
    let mut analyzer = SemanticAnalyzer::new();
    assert_eq!(
        check_in(&mut analyzer, "let x = 1; { let x = \"a\"; { let z = 2; y; } }"),
        Err("Undeclared variable: y".to_string())
    );
    assert_eq!(analyzer.lookup_variable("x"), Some(&Type::Integer));
    assert_eq!(analyzer.lookup_variable("z"), None);
    assert_eq!(
        analyzer.declare_variable("x".to_string(), Type::Boolean),
        Err("Symbol 'x' is already defined".to_string())
    );
}

#[test]
fn declarations_before_a_violation_stay() {
    let mut analyzer = SemanticAnalyzer::new();
    assert_eq!(
        check_in(&mut analyzer, "let x = 1; let y = x + \"a\";"),
        Err("Type error: Integer and String are not compatible with Plus".to_string())
    );
    assert_eq!(analyzer.lookup_variable("x"), Some(&Type::Integer));
    assert_eq!(analyzer.lookup_variable("y"), None);
}

#[test]
fn analyzer_scopes() {
    let mut analyzer = SemanticAnalyzer::new();
    assert_eq!(analyzer.lookup_variable("x"), None);
    assert_eq!(analyzer.declare_variable("x".to_string(), Type::Integer), Ok(()));
    assert_eq!(analyzer.lookup_variable("x"), Some(&Type::Integer));
    analyzer.enter_scope();
    assert_eq!(analyzer.lookup_variable("x"), Some(&Type::Integer));
    assert_eq!(analyzer.declare_variable("x".to_string(), Type::String), Ok(()));
    assert_eq!(analyzer.lookup_variable("x"), Some(&Type::String));
    assert_eq!(analyzer.declare_variable("y".to_string(), Type::Boolean), Ok(()));
    assert_eq!(
        analyzer.declare_variable("y".to_string(), Type::Boolean),
        Err("Symbol 'y' is already defined".to_string())
    );
    analyzer.enter_scope();
    assert_eq!(analyzer.lookup_variable("y"), Some(&Type::Boolean));
    analyzer.exit_scope();
    analyzer.exit_scope();
    assert_eq!(analyzer.lookup_variable("x"), Some(&Type::Integer));
    assert_eq!(analyzer.lookup_variable("y"), None);
}

#[test]
fn names_are_compared_exactly() {
    let mut analyzer = SemanticAnalyzer::new();
    assert_eq!(analyzer.declare_variable("x".to_string(), Type::Integer), Ok(()));
    assert_eq!(analyzer.declare_variable("X".to_string(), Type::String), Ok(()));
    assert_eq!(analyzer.declare_variable("".to_string(), Type::Boolean), Ok(()));
    assert_eq!(analyzer.lookup_variable("x"), Some(&Type::Integer));
    assert_eq!(analyzer.lookup_variable("X"), Some(&Type::String));
    assert_eq!(analyzer.lookup_variable(""), Some(&Type::Boolean));
    assert_eq!(analyzer.lookup_variable("x "), None);
}

#[test]
fn symbol_table_insert_and_lookup() {
    let mut table = SymbolTable::new(None);
    assert!(table.lookup("x").is_none());
    assert_eq!(table.insert("x".to_string(), Type::Integer), Ok(()));
    let entry: &SymbolEntry = table.lookup("x").unwrap();
    assert_eq!(entry.name, "x");
    assert_eq!(entry.typ, Type::Integer);
    assert_eq!(
        table.insert("x".to_string(), Type::String),
        Err("Symbol 'x' is already defined".to_string())
    );
    assert_eq!(table.lookup("x").unwrap().typ, Type::Integer);
    assert!(table.lookup("y").is_none());
}

#[test]
fn symbol_table_looks_outwards() {
    let mut global = SymbolTable::new(None);
    assert_eq!(global.insert("g".to_string(), Type::String), Ok(()));
    assert_eq!(global.insert("x".to_string(), Type::Integer), Ok(()));
    let mut middle = SymbolTable::new(Some(Box::new(global)));
    assert_eq!(middle.insert("m".to_string(), Type::Boolean), Ok(()));
    let mut inner = SymbolTable::new(Some(Box::new(middle)));
    assert_eq!(inner.insert("x".to_string(), Type::Boolean), Ok(()));

    assert_eq!(inner.lookup("x").unwrap().typ, Type::Boolean);
    assert_eq!(inner.lookup("m").unwrap().typ, Type::Boolean);
    assert_eq!(inner.lookup("g").unwrap().typ, Type::String);
    assert_eq!(inner.lookup("g").unwrap().name, "g");
    assert!(inner.lookup("none").is_none());
    assert_eq!(inner.insert("g".to_string(), Type::Integer), Ok(()));
    assert_eq!(inner.lookup("g").unwrap().typ, Type::Integer);
}

#[test]
fn symbol_entry_clone() {
    let entry = SymbolEntry { name: "n".to_string(), typ: Type::String };
    let copy = entry.clone();
    assert_eq!(copy.name, "n");
    assert_eq!(copy.typ, Type::String);
}

#[test]
fn type_text() {
    for (typ, name) in [
        (Type::Integer, "Integer"),
        (Type::String, "String"),
        (Type::Boolean, "Boolean"),
    ] {
        let mut text = String::new();
        typ.push_text(&mut text);
        assert_eq!(text, name);
        assert_eq!(text, format!("{:?}", typ));
    }
}

#[test]
fn symbol_table_counts_its_own_entries() {
    let mut global = SymbolTable::new(None);
    assert_eq!(global.len(), 0);
    assert_eq!(global.insert("a".to_string(), Type::Integer), Ok(()));
    assert_eq!(global.insert("b".to_string(), Type::String), Ok(()));
    assert_eq!(global.len(), 2);
    assert!(global.insert("a".to_string(), Type::Boolean).is_err());
    assert_eq!(global.len(), 2);
    let mut inner = SymbolTable::new(Some(Box::new(global)));
    assert_eq!(inner.len(), 0);
    assert_eq!(inner.insert("a".to_string(), Type::Boolean), Ok(()));
    assert_eq!(inner.len(), 1);
}

#[test]
fn symbol_table_gives_its_enclosing_scope() {
    let mut global = SymbolTable::new(None);
    assert!(global.parent().is_none());
    assert_eq!(global.insert("g".to_string(), Type::String), Ok(()));
    let mut inner = SymbolTable::new(Some(Box::new(global)));
    assert_eq!(inner.insert("x".to_string(), Type::Integer), Ok(()));
    let enclosing = inner.parent().unwrap();
    assert_eq!(enclosing.len(), 1);
    assert_eq!(enclosing.lookup("g").unwrap().typ, Type::String);
    assert!(enclosing.lookup("x").is_none());
    assert!(enclosing.parent().is_none());
}

#[test]
fn symbol_table_clone_is_a_copy_of_the_chain() {
    let mut global = SymbolTable::new(None);
    assert_eq!(global.insert("g".to_string(), Type::String), Ok(()));
    assert_eq!(global.insert("x".to_string(), Type::Integer), Ok(()));
    let mut inner = SymbolTable::new(Some(Box::new(global)));
    assert_eq!(inner.insert("x".to_string(), Type::Boolean), Ok(()));
    assert_eq!(inner.insert("y".to_string(), Type::Integer), Ok(()));

    let mut copy = inner.clone();
    assert_eq!(copy.len(), 2);
    assert_eq!(copy.lookup("x").unwrap().typ, Type::Boolean);
    assert_eq!(copy.lookup("y").unwrap().typ, Type::Integer);
    assert_eq!(copy.lookup("g").unwrap().typ, Type::String);
    assert_eq!(copy.lookup("g").unwrap().name, "g");
    assert!(copy.lookup("z").is_none());
    assert_eq!(copy.parent().unwrap().len(), 2);
    assert_eq!(copy.parent().unwrap().lookup("x").unwrap().typ, Type::Integer);
    assert_eq!(
        copy.insert("x".to_string(), Type::String),
        Err("Symbol 'x' is already defined".to_string())
    );

    assert_eq!(copy.insert("z".to_string(), Type::String), Ok(()));
    assert_eq!(copy.len(), 3);
    assert_eq!(inner.len(), 2);
    assert!(inner.lookup("z").is_none());
    assert_eq!(inner.insert("w".to_string(), Type::String), Ok(()));
    assert!(copy.lookup("w").is_none());
}

use crate::lexer::lexer::{SpecToken, Token};
use crate::parser::grammar::{
    expect, lemma_condition_advances, lemma_factor_advances, lemma_statement_advances,
    lemma_term_advances, parse_block, parse_block_tail, parse_expr, parse_expr_stmt,
    parse_expr_tail, parse_factor, parse_if, parse_let, parse_program, parse_return,
    parse_statement, parse_statements, parse_term, parse_term_tail, parse_while, remaining,
    step, token_at, Failure, ParseError, Parsed,
};
use crate::text::{decimal_text, push_decimal, push_quoted, quoted};
use vstd::prelude::*;
use vstd::string::StringExecFns;

verus! {

/// A node of the abstract syntax tree. Every node owns its children.
#[derive(Debug, PartialEq)]
pub enum ASTNode {
    /// A whole program: its statements in order.
    Program(Vec<ASTNode>),
    /// A list of statements.
    StmtList(Vec<ASTNode>),
    /// `let` statement: the variable's name and the initializer.
    LetStmt(String, Box<ASTNode>),
    /// `if` statement: condition, then-branch, else-branch if there is one.
    IfStmt(Box<ASTNode>, Box<ASTNode>, Option<Box<ASTNode>>),
    /// `while` statement: condition and body.
    WhileStmt(Box<ASTNode>, Box<ASTNode>),
    /// `return` statement: the returned expression.
    ReturnStmt(Box<ASTNode>),
    /// A block of statements, a scope of its own.
    Block(Vec<ASTNode>),
    /// An expression used as a statement.
    ExprStmt(Box<ASTNode>),
    /// A binary operation: left operand, operator, right operand.
    BinaryOp(Box<ASTNode>, Token, Box<ASTNode>),
    /// A reference to a variable.
    Identifier(String),
    /// An integer literal.
    Integer(i64),
    /// A string literal.
    StringLiteral(String),
}

/// A syntax tree as a mathematical value.
pub enum SpecNode {
    Program(Seq<SpecNode>),
    StmtList(Seq<SpecNode>),
    LetStmt(Seq<char>, Box<SpecNode>),
    IfStmt(Box<SpecNode>, Box<SpecNode>, Option<Box<SpecNode>>),
    WhileStmt(Box<SpecNode>, Box<SpecNode>),
    ReturnStmt(Box<SpecNode>),
    Block(Seq<SpecNode>),
    ExprStmt(Box<SpecNode>),
    BinaryOp(Box<SpecNode>, SpecToken, Box<SpecNode>),
    Identifier(Seq<char>),
    Integer(i64),
    StringLiteral(Seq<char>),
}

/// The trees that a vector of nodes stands for, in order.
pub open spec fn view_all(nodes: Seq<ASTNode>) -> Seq<SpecNode> {
    Seq::new(nodes.len(), |i: int| nodes[i]@)
}

impl ASTNode {
    /// The tree that this node stands for.
    pub open spec fn view(&self) -> SpecNode
        decreases self,
    {
        match self {
            ASTNode::Program(nodes) => SpecNode::Program(
                Seq::new(
                    nodes.len() as nat,
                    |i: int|
                        if 0 <= i < nodes.len() {
                            nodes[i].view()
                        } else {
                            arbitrary()
                        },
                ),
            ),
            ASTNode::StmtList(nodes) => SpecNode::StmtList(
                Seq::new(
                    nodes.len() as nat,
                    |i: int|
                        if 0 <= i < nodes.len() {
                            nodes[i].view()
                        } else {
                            arbitrary()
                        },
                ),
            ),
            ASTNode::LetStmt(name, value) => SpecNode::LetStmt(name@, Box::new(value.view())),
            ASTNode::IfStmt(condition, then_branch, else_branch) => SpecNode::IfStmt(
                Box::new(condition.view()),
                Box::new(then_branch.view()),
                match else_branch {
                    Some(branch) => Some(Box::new(branch.view())),
                    None => None,
                },
            ),
            ASTNode::WhileStmt(condition, body) => SpecNode::WhileStmt(
                Box::new(condition.view()),
                Box::new(body.view()),
            ),
            ASTNode::ReturnStmt(value) => SpecNode::ReturnStmt(Box::new(value.view())),
            ASTNode::Block(nodes) => SpecNode::Block(
                Seq::new(
                    nodes.len() as nat,
                    |i: int|
                        if 0 <= i < nodes.len() {
                            nodes[i].view()
                        } else {
                            arbitrary()
                        },
                ),
            ),
            ASTNode::ExprStmt(value) => SpecNode::ExprStmt(Box::new(value.view())),
            ASTNode::BinaryOp(left, operator, right) => SpecNode::BinaryOp(
                Box::new(left.view()),
                operator@,
                Box::new(right.view()),
            ),
            ASTNode::Identifier(name) => SpecNode::Identifier(name@),
            ASTNode::Integer(value) => SpecNode::Integer(*value),
            ASTNode::StringLiteral(text) => SpecNode::StringLiteral(text@),
        }
    }

    /// The view of a node that holds a list is that list, node by node.
    pub proof fn lemma_view_of_list(&self)
        ensures
            self matches ASTNode::Program(nodes) ==> self@ == SpecNode::Program(view_all(nodes@)),
            self matches ASTNode::StmtList(nodes) ==> self@ == SpecNode::StmtList(
                view_all(nodes@),
            ),
            self matches ASTNode::Block(nodes) ==> self@ == SpecNode::Block(view_all(nodes@)),
    {
        match self {
            ASTNode::Program(nodes) => {
                assert(self@->Program_0 =~= view_all(nodes@));
            },
            ASTNode::StmtList(nodes) => {
                assert(self@->StmtList_0 =~= view_all(nodes@));
            },
            ASTNode::Block(nodes) => {
                assert(self@->Block_0 =~= view_all(nodes@));
            },
            _ => {},
        }
    }
}

/// The first `count` of `nodes` as messages show them, separated by a comma
/// and a space.
pub open spec fn list_text(nodes: Seq<SpecNode>, count: nat) -> Seq<char>
    decreases nodes, count,
{
    if count == 0 || count > nodes.len() {
        Seq::empty()
    } else if count == 1 {
        nodes[0].text()
    } else {
        list_text(nodes, (count - 1) as nat) + ", "@ + nodes[count - 1].text()
    }
}

impl SpecNode {
    /// The tree as error messages show it: the name of the node's kind and,
    /// in round brackets, its parts; a list in square brackets, a text
    /// quoted, a number in base ten, an absent else-branch as `None`.
    pub open spec fn text(self) -> Seq<char>
        decreases self, 0nat,
    {
        match self {
            SpecNode::Program(nodes) => "Program(["@ + list_text(nodes, nodes.len()) + "])"@,
            SpecNode::StmtList(nodes) => "StmtList(["@ + list_text(nodes, nodes.len()) + "])"@,
            SpecNode::LetStmt(name, value) => "LetStmt("@ + quoted(name) + ", "@ + value.text()
                + ")"@,
            SpecNode::IfStmt(condition, then_branch, else_branch) => "IfStmt("@
                + condition.text() + ", "@ + then_branch.text() + ", "@ + (match else_branch {
                Some(branch) => "Some("@ + branch.text() + ")"@,
                None => "None"@,
            }) + ")"@,
            SpecNode::WhileStmt(condition, body) => "WhileStmt("@ + condition.text() + ", "@
                + body.text() + ")"@,
            SpecNode::ReturnStmt(value) => "ReturnStmt("@ + value.text() + ")"@,
            SpecNode::Block(nodes) => "Block(["@ + list_text(nodes, nodes.len()) + "])"@,
            SpecNode::ExprStmt(value) => "ExprStmt("@ + value.text() + ")"@,
            SpecNode::BinaryOp(left, operator, right) => "BinaryOp("@ + left.text() + ", "@
                + operator.text() + ", "@ + right.text() + ")"@,
            SpecNode::Identifier(name) => "Identifier("@ + quoted(name) + ")"@,
            SpecNode::Integer(value) => "Integer("@ + decimal_text(value as int) + ")"@,
            SpecNode::StringLiteral(text) => "StringLiteral("@ + quoted(text) + ")"@,
        }
    }
}

/// Appends `nodes` to `out` as error messages show them, separated by a
/// comma and a space.
fn push_list_text(nodes: &Vec<ASTNode>, out: &mut String)
    ensures
        final(out)@ == old(out)@ + list_text(view_all(nodes@), nodes@.len()),
    decreases nodes, 1nat,
{
    let mut i: usize = 0;
    while i < nodes.len()
        invariant
            i <= nodes.len(),
            out@ == old(out)@ + list_text(view_all(nodes@), i as nat),
        decreases nodes.len() - i,
    {
        let ghost before = out@;
        if i > 0 {
            out.append(", ");
        }
        nodes[i].push_text(out);
        proof {
            assert(view_all(nodes@)[i as int] == nodes[i as int]@);
            assert(out@ =~= old(out)@ + list_text(view_all(nodes@), (i + 1) as nat));
        }
        i = i + 1;
    }
}

impl ASTNode {
    /// Appends the tree to `out` as error messages show it.
    pub fn push_text(&self, out: &mut String)
        ensures
            final(out)@ == old(out)@ + self@.text(),
        decreases self, 0nat,
    {
        proof {
            self.lemma_view_of_list();
        }
        match self {
            ASTNode::Program(nodes) => {
                out.append("Program([");
                push_list_text(nodes, out);
                out.append("])");
            },
            ASTNode::StmtList(nodes) => {
                out.append("StmtList([");
                push_list_text(nodes, out);
                out.append("])");
            },
            ASTNode::LetStmt(name, value) => {
                out.append("LetStmt(");
                push_quoted(out, name.as_str());
                out.append(", ");
                value.push_text(out);
                out.append(")");
            },
            ASTNode::IfStmt(condition, then_branch, else_branch) => {
                out.append("IfStmt(");
                condition.push_text(out);
                out.append(", ");
                then_branch.push_text(out);
                out.append(", ");
                match else_branch {
                    Some(branch) => {
                        out.append("Some(");
                        branch.push_text(out);
                        out.append(")");
                    },
                    None => {
                        out.append("None");
                    },
                }
                out.append(")");
            },
            ASTNode::WhileStmt(condition, body) => {
                out.append("WhileStmt(");
                condition.push_text(out);
                out.append(", ");
                body.push_text(out);
                out.append(")");
            },
            ASTNode::ReturnStmt(value) => {
                out.append("ReturnStmt(");
                value.push_text(out);
                out.append(")");
            },
            ASTNode::Block(nodes) => {
                out.append("Block([");
                push_list_text(nodes, out);
                out.append("])");
            },
            ASTNode::ExprStmt(value) => {
                out.append("ExprStmt(");
                value.push_text(out);
                out.append(")");
            },
            ASTNode::BinaryOp(left, operator, right) => {
                out.append("BinaryOp(");
                left.push_text(out);
                out.append(", ");
                operator.push_text(out);
                out.append(", ");
                right.push_text(out);
                out.append(")");
            },
            ASTNode::Identifier(name) => {
                out.append("Identifier(");
                push_quoted(out, name.as_str());
                out.append(")");
            },
            ASTNode::Integer(value) => {
                out.append("Integer(");
                push_decimal(out, *value);
                out.append(")");
            },
            ASTNode::StringLiteral(text) => {
                out.append("StringLiteral(");
                push_quoted(out, text.as_str());
                out.append(")");
            },
        }
        assert(out@ =~= old(out)@ + self@.text());
    }
}

/// The tokens that a vector of tokens stands for, in order.
pub open spec fn view_tokens(tokens: Seq<Token>) -> Seq<SpecToken> {
    Seq::new(tokens.len(), |i: int| tokens[i]@)
}

/// Whether `result`, with the parser left at `position`, is what the
/// grammar's outcome `parsed` asks for: the tree and the position after it,
/// or the message of the mismatch and the position of the token at which
/// parsing stopped.
pub open spec fn reports(
    result: Result<ASTNode, std::string::String>,
    position: nat,
    parsed: Parsed<SpecNode>,
) -> bool {
    match parsed {
        Ok((node, next)) => result matches Ok(tree) && tree@ == node && position == next,
        Err(failure) => result matches Err(message) && message@ == failure.error.text()
            && position == failure.at,
    }
}

/// Two parses of the same tokens from the same position agree: both give
/// the same tree, or both give the same message, and both leave off at the
/// same position.
pub proof fn lemma_parses_agree(
    tokens: Seq<SpecToken>,
    pos: nat,
    first: Result<ASTNode, std::string::String>,
    first_position: nat,
    second: Result<ASTNode, std::string::String>,
    second_position: nat,
)
    requires
        reports(first, first_position, parse_program(tokens, pos)),
        reports(second, second_position, parse_program(tokens, pos)),
    ensures
        first_position == second_position,
        first matches Ok(tree) ==> second matches Ok(other) && tree@ == other@,
        first matches Err(message) ==> second matches Err(other) && message@ == other@,
{
}

/// A statement cannot begin past the last token: the operand that it would
/// begin with is missing.
proof fn lemma_no_statement_at_end(tokens: Seq<SpecToken>, pos: nat)
    requires
        pos >= tokens.len(),
    ensures
        parse_statement(tokens, pos) == Err::<(SpecNode, nat), Failure>(
            Failure { error: ParseError::UnexpectedInFactor { found: SpecToken::EOF }, at: pos },
        ),
{
    let failure = Err::<(SpecNode, nat), Failure>(
        Failure { error: ParseError::UnexpectedInFactor { found: SpecToken::EOF }, at: pos },
    );
    assert(parse_factor(tokens, pos) == failure);
    assert(parse_term(tokens, pos) == failure);
    assert(parse_expr(tokens, pos) == failure);
    assert(parse_expr_stmt(tokens, pos) == failure);
}

/// The message for a token that is not the one required.
fn expected_message(expected: &Token, found: &Token) -> (message: std::string::String)
    ensures
        message@ == (ParseError::Expected { expected: expected@, found: found@ }).text(),
{
    let mut message = std::string::String::from_str("Expected ");
    expected.push_text(&mut message);
    message.append(", found ");
    found.push_text(&mut message);
    assert(message@ =~= "Expected "@ + expected@.text() + ", found "@ + found@.text());
    message
}

/// A recursive-descent parser over a sequence of tokens.
pub struct Parser {
    tokens: Vec<Token>,
    current_token: usize,
}

impl Parser {
    #[verifier::type_invariant]
    spec fn well_formed(&self) -> bool {
        self.current_token <= self.tokens.len()
    }

    /// The tokens that are parsed.
    pub closed spec fn tokens(&self) -> Seq<SpecToken> {
        view_tokens(self.tokens@)
    }

    /// The number of tokens consumed so far.
    pub closed spec fn position(&self) -> nat {
        self.current_token as nat
    }

    /// A parser at the first of `tokens`.
    pub fn new(tokens: Vec<Token>) -> (parser: Parser)
        ensures
            parser.tokens() == view_tokens(tokens@),
            parser.position() == 0,
    {
        Parser { tokens, current_token: 0 }
    }

    /// Steps over the current token; past the last token there is nothing
    /// to step over.
    fn advance(&mut self)
        ensures
            final(self).tokens() == old(self).tokens(),
            final(self).position() == step(old(self).tokens(), old(self).position()),
    {
        proof {
            use_type_invariant(&*self);
        }
        if self.current_token < self.tokens.len() {
            self.current_token = self.current_token + 1;
        }
    }

    /// The current token; past the last token, the end-of-input marker.
    fn current(&self) -> (token: &Token)
        ensures
            token@ == token_at(self.tokens(), self.position()),
            self.position() <= self.tokens().len(),
    {
        proof {
            use_type_invariant(self);
        }
        if self.current_token < self.tokens.len() {
            &self.tokens[self.current_token]
        } else {
            &Token::EOF
        }
    }

    /// Requires `expected` as the current token and steps over it.
    fn expect(&mut self, expected: Token) -> (result: Result<(), std::string::String>)
        ensures
            final(self).tokens() == old(self).tokens(),
            match expect(old(self).tokens(), old(self).position(), expected@) {
                Ok(next) => result is Ok && final(self).position() == next,
                Err(failure) => result matches Err(message) && message@ == failure.error.text()
                    && final(self).position() == failure.at,
            },
    {
        if self.current().equals(&expected) {
            self.advance();
            Ok(())
        } else {
            Err(expected_message(&expected, self.current()))
        }
    }

    /// Parses a program from the current token on: a list of statements, up
    /// to the end-of-input marker or to a closing brace that no block of the
    /// list owns. The first token that does not fit the grammar ends the
    /// parse: no tree is returned, the message names what was required and
    /// the token that was found, and the parser stays at that token.
    pub fn parse_program(&mut self) -> (result: Result<ASTNode, std::string::String>)
        ensures
            final(self).tokens() == old(self).tokens(),
            final(self).position() <= final(self).tokens().len(),
            reports(
                result,
                final(self).position(),
                parse_program(old(self).tokens(), old(self).position()),
            ),
    {
        let result = self.parse_stmt_list();
        proof {
            use_type_invariant(&*self);
        }
        result
    }

    fn parse_stmt_list(&mut self) -> (result: Result<ASTNode, std::string::String>)
        ensures
            final(self).tokens() == old(self).tokens(),
            reports(
                result,
                final(self).position(),
                parse_program(old(self).tokens(), old(self).position()),
            ),
    {
        let ghost tokens = self.tokens();
        let ghost pos = self.position();
        let mut stmts: Vec<ASTNode> = Vec::new();
        assert(view_all(stmts@) =~= Seq::<SpecNode>::empty());
        loop
            invariant
                tokens == old(self).tokens(),
                pos == old(self).position(),
                self.tokens() == tokens,
                parse_statements(tokens, pos, Seq::empty()) == parse_statements(
                    tokens,
                    self.position(),
                    view_all(stmts@),
                ),
            ensures
                self.tokens() == tokens,
                parse_statements(tokens, pos, Seq::empty()) == Ok::<(Seq<SpecNode>, nat), Failure>(
                    (view_all(stmts@), self.position()),
                ),
            decreases remaining(tokens, self.position()),
        {
            let ghost at = self.position();
            let ghost done = view_all(stmts@);
            let at_end = match self.current() {
                Token::EOF | Token::RBrace => true,
                _ => false,
            };
            if at_end {
                break ;
            }
            proof {
                lemma_statement_advances(tokens, at);
            }
            let stmt = self.parse_stmt()?;
            stmts.push(stmt);
            assert(view_all(stmts@) =~= done.push(stmt@));
        }
        let list = ASTNode::StmtList(stmts);
        proof {
            list.lemma_view_of_list();
        }
        Ok(list)
    }

    fn parse_stmt(&mut self) -> (result: Result<ASTNode, std::string::String>)
        ensures
            final(self).tokens() == old(self).tokens(),
            reports(
                result,
                final(self).position(),
                parse_statement(old(self).tokens(), old(self).position()),
            ),
        decreases remaining(old(self).tokens(), old(self).position()), 7nat,
    {
        match self.current() {
            Token::Let => self.parse_let_stmt(),
            Token::If => self.parse_if_stmt(),
            Token::While => self.parse_while_stmt(),
            Token::Return => self.parse_return_stmt(),
            Token::LBrace => self.parse_block(),
            _ => self.parse_expr_stmt(),
        }
    }

    fn parse_let_stmt(&mut self) -> (result: Result<ASTNode, std::string::String>)
        ensures
            final(self).tokens() == old(self).tokens(),
            reports(
                result,
                final(self).position(),
                parse_let(old(self).tokens(), old(self).position()),
            ),
        decreases remaining(old(self).tokens(), old(self).position()), 5nat,
    {
        self.expect(Token::Let)?;
        let identifier = if let Token::Identifier(name) = self.current() {
            name.clone()
        } else {
            let mut message = std::string::String::from_str("Expected identifier, found ");
            self.current().push_text(&mut message);
            return Err(message);
        };
        self.advance();
        self.expect(Token::Equal)?;
        let expr = self.parse_expr()?;
        self.expect(Token::Semicolon)?;
        Ok(ASTNode::LetStmt(identifier, Box::new(expr)))
    }

    fn parse_if_stmt(&mut self) -> (result: Result<ASTNode, std::string::String>)
        ensures
            final(self).tokens() == old(self).tokens(),
            reports(
                result,
                final(self).position(),
                parse_if(old(self).tokens(), old(self).position()),
            ),
        decreases remaining(old(self).tokens(), old(self).position()), 6nat,
    {
        let ghost tokens = self.tokens();
        let ghost pos = self.position();
        self.expect(Token::If)?;
        self.expect(Token::LParen)?;
        let condition = self.parse_expr()?;
        self.expect(Token::RParen)?;
        proof {
            lemma_condition_advances(tokens, pos + 1);
        }
        let ghost at_then = self.position();
        let then_branch = self.parse_stmt()?;
        proof {
            lemma_statement_advances(tokens, at_then);
        }
        let is_else = match self.current() {
            Token::Else => true,
            _ => false,
        };
        let else_branch = if is_else {
            self.advance();
            Some(Box::new(self.parse_stmt()?))
        } else {
            None
        };
        Ok(ASTNode::IfStmt(Box::new(condition), Box::new(then_branch), else_branch))
    }

    fn parse_while_stmt(&mut self) -> (result: Result<ASTNode, std::string::String>)
        ensures
            final(self).tokens() == old(self).tokens(),
            reports(
                result,
                final(self).position(),
                parse_while(old(self).tokens(), old(self).position()),
            ),
        decreases remaining(old(self).tokens(), old(self).position()), 6nat,
    {
        let ghost tokens = self.tokens();
        let ghost pos = self.position();
        self.expect(Token::While)?;
        self.expect(Token::LParen)?;
        let condition = self.parse_expr()?;
        self.expect(Token::RParen)?;
        proof {
            lemma_condition_advances(tokens, pos + 1);
        }
        let body = self.parse_stmt()?;
        Ok(ASTNode::WhileStmt(Box::new(condition), Box::new(body)))
    }

    fn parse_return_stmt(&mut self) -> (result: Result<ASTNode, std::string::String>)
        ensures
            final(self).tokens() == old(self).tokens(),
            reports(
                result,
                final(self).position(),
                parse_return(old(self).tokens(), old(self).position()),
            ),
        decreases remaining(old(self).tokens(), old(self).position()), 5nat,
    {
        self.expect(Token::Return)?;
        let expr = self.parse_expr()?;
        self.expect(Token::Semicolon)?;
        Ok(ASTNode::ReturnStmt(Box::new(expr)))
    }

    fn parse_block(&mut self) -> (result: Result<ASTNode, std::string::String>)
        ensures
            final(self).tokens() == old(self).tokens(),
            reports(
                result,
                final(self).position(),
                parse_block(old(self).tokens(), old(self).position()),
            ),
        decreases remaining(old(self).tokens(), old(self).position()), 5nat,
    {
        let ghost tokens = self.tokens();
        let ghost pos = self.position();
        self.expect(Token::LBrace)?;
        let mut stmts: Vec<ASTNode> = Vec::new();
        assert(view_all(stmts@) =~= Seq::<SpecNode>::empty());
        loop
            invariant
                tokens == old(self).tokens(),
                pos == old(self).position(),
                self.tokens() == tokens,
                pos < self.position(),
                pos < tokens.len(),
                parse_block(tokens, pos) == parse_block_tail(
                    tokens,
                    self.position(),
                    view_all(stmts@),
                ),
            ensures
                self.tokens() == tokens,
                token_at(tokens, self.position()) == SpecToken::RBrace,
                parse_block(tokens, pos) == parse_block_tail(
                    tokens,
                    self.position(),
                    view_all(stmts@),
                ),
            decreases remaining(tokens, self.position()),
        {
            let ghost at = self.position();
            let ghost done = view_all(stmts@);
            let closes = match self.current() {
                Token::RBrace => true,
                _ => false,
            };
            if closes {
                break ;
            }
            proof {
                lemma_statement_advances(tokens, at);
                if at >= tokens.len() {
                    lemma_no_statement_at_end(tokens, at);
                }
            }
            let stmt = self.parse_stmt()?;
            stmts.push(stmt);
            assert(view_all(stmts@) =~= done.push(stmt@));
        }
        self.expect(Token::RBrace)?;
        let block = ASTNode::Block(stmts);
        proof {
            block.lemma_view_of_list();
        }
        Ok(block)
    }

    fn parse_expr_stmt(&mut self) -> (result: Result<ASTNode, std::string::String>)
        ensures
            final(self).tokens() == old(self).tokens(),
            reports(
                result,
                final(self).position(),
                parse_expr_stmt(old(self).tokens(), old(self).position()),
            ),
        decreases remaining(old(self).tokens(), old(self).position()), 5nat,
    {
        let expr = self.parse_expr()?;
        self.expect(Token::Semicolon)?;
        Ok(ASTNode::ExprStmt(Box::new(expr)))
    }

    fn parse_expr(&mut self) -> (result: Result<ASTNode, std::string::String>)
        ensures
            final(self).tokens() == old(self).tokens(),
            reports(
                result,
                final(self).position(),
                parse_expr(old(self).tokens(), old(self).position()),
            ),
        decreases remaining(old(self).tokens(), old(self).position()), 4nat,
    {
        let ghost tokens = self.tokens();
        let ghost pos = self.position();
        proof {
            use_type_invariant(&*self);
            lemma_term_advances(tokens, pos);
        }
        let mut node = self.parse_term()?;
        loop
            invariant
                tokens == old(self).tokens(),
                pos == old(self).position(),
                self.tokens() == tokens,
                pos <= self.position(),
                parse_expr(tokens, pos) == parse_expr_tail(tokens, self.position(), node@),
            ensures
                self.tokens() == tokens,
                parse_expr(tokens, pos) == Ok::<(SpecNode, nat), Failure>(
                    (node@, self.position()),
                ),
            decreases remaining(tokens, self.position()),
        {
            let ghost at = self.position();
            let is_operator = match self.current() {
                Token::Plus | Token::Minus | Token::GreaterThan | Token::LessThan | Token::Equal
                | Token::NotEqual => true,
                _ => false,
            };
            if !is_operator {
                break ;
            }
            let op = self.current().clone();
            self.advance();
            proof {
                lemma_term_advances(tokens, at + 1);
            }
            let right = self.parse_term()?;
            node = ASTNode::BinaryOp(Box::new(node), op, Box::new(right));
        }
        Ok(node)
    }

    fn parse_term(&mut self) -> (result: Result<ASTNode, std::string::String>)
        ensures
            final(self).tokens() == old(self).tokens(),
            reports(
                result,
                final(self).position(),
                parse_term(old(self).tokens(), old(self).position()),
            ),
        decreases remaining(old(self).tokens(), old(self).position()), 2nat,
    {
        let ghost tokens = self.tokens();
        let ghost pos = self.position();
        proof {
            use_type_invariant(&*self);
            lemma_factor_advances(tokens, pos);
        }
        let mut node = self.parse_factor()?;
        loop
            invariant
                tokens == old(self).tokens(),
                pos == old(self).position(),
                self.tokens() == tokens,
                pos <= self.position(),
                parse_term(tokens, pos) == parse_term_tail(tokens, self.position(), node@),
            ensures
                self.tokens() == tokens,
                parse_term(tokens, pos) == Ok::<(SpecNode, nat), Failure>(
                    (node@, self.position()),
                ),
            decreases remaining(tokens, self.position()),
        {
            let ghost at = self.position();
            let is_operator = match self.current() {
                Token::Star | Token::Slash => true,
                _ => false,
            };
            if !is_operator {
                break ;
            }
            let op = self.current().clone();
            self.advance();
            proof {
                lemma_factor_advances(tokens, at + 1);
            }
            let right = self.parse_factor()?;
            node = ASTNode::BinaryOp(Box::new(node), op, Box::new(right));
        }
        Ok(node)
    }

    fn parse_factor(&mut self) -> (result: Result<ASTNode, std::string::String>)
        ensures
            final(self).tokens() == old(self).tokens(),
            reports(
                result,
                final(self).position(),
                parse_factor(old(self).tokens(), old(self).position()),
            ),
        decreases remaining(old(self).tokens(), old(self).position()), 0nat,
    {
        match self.current() {
            Token::LParen => {
                self.advance();
                let node = self.parse_expr()?;
                self.expect(Token::RParen)?;
                Ok(node)
            },
            Token::Identifier(name) => {
                let node = ASTNode::Identifier(name.clone());
                self.advance();
                Ok(node)
            },
            Token::Integer(value) => {
                let node = ASTNode::Integer(*value);
                self.advance();
                Ok(node)
            },
            Token::StringLiteral(value) => {
                let node = ASTNode::StringLiteral(value.clone());
                self.advance();
                Ok(node)
            },
            found => {
                let mut message = std::string::String::from_str("Unexpected token in factor: ");
                found.push_text(&mut message);
                Err(message)
            },
        }
    }
}

} // verus!

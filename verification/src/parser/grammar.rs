use crate::lexer::lexer::SpecToken;
use crate::parser::parser::SpecNode;
use vstd::prelude::*;

verus! {

/// Why a token sequence is no program.
pub enum ParseError {
    /// A particular token was required and another one was found.
    Expected { expected: SpecToken, found: SpecToken },
    /// A name was required after `let` and another token was found.
    ExpectedIdentifier { found: SpecToken },
    /// An operand was required and a token that cannot begin one was found.
    UnexpectedInFactor { found: SpecToken },
}

impl ParseError {
    /// The message that reports the error: it names what was required and
    /// the token that was found.
    pub open spec fn text(self) -> Seq<char> {
        match self {
            ParseError::Expected { expected, found } => "Expected "@ + expected.text()
                + ", found "@ + found.text(),
            ParseError::ExpectedIdentifier { found } => "Expected identifier, found "@
                + found.text(),
            ParseError::UnexpectedInFactor { found } => "Unexpected token in factor: "@
                + found.text(),
        }
    }
}

/// A grammar mismatch: what is wrong, and the position of the token at
/// which parsing stopped.
pub struct Failure {
    pub error: ParseError,
    pub at: nat,
}

/// What parsing a construct comes to: its value and the position of the
/// token after it, or the first mismatch.
pub type Parsed<T> = Result<(T, nat), Failure>;

/// The token at `pos`; past the last token, the end-of-input marker.
pub open spec fn token_at(tokens: Seq<SpecToken>, pos: nat) -> SpecToken {
    if pos < tokens.len() {
        tokens[pos as int]
    } else {
        SpecToken::EOF
    }
}

/// The position after the token at `pos`; past the last token there is
/// nothing to step over.
pub open spec fn step(tokens: Seq<SpecToken>, pos: nat) -> nat {
    if pos < tokens.len() {
        pos + 1
    } else {
        pos
    }
}

/// The number of tokens from `pos` to the end.
pub open spec fn remaining(tokens: Seq<SpecToken>, pos: nat) -> nat {
    if pos <= tokens.len() {
        (tokens.len() - pos) as nat
    } else {
        0
    }
}

/// The later of two positions. Parsing only moves forward; where a position
/// is taken from the parse of a part, `onward` says so, which lets the
/// grammar be seen to terminate. It never changes such a position
/// (`lemma_statement_advances` and its companions).
pub open spec fn onward(floor: nat, next: nat) -> nat {
    if next >= floor {
        next
    } else {
        floor
    }
}

/// Requires the token `expected` at `pos` and steps over it.
pub open spec fn expect(tokens: Seq<SpecToken>, pos: nat, expected: SpecToken) -> Result<
    nat,
    Failure,
> {
    if token_at(tokens, pos) == expected {
        Ok(step(tokens, pos))
    } else {
        Err(
            Failure {
                error: ParseError::Expected { expected, found: token_at(tokens, pos) },
                at: pos,
            },
        )
    }
}

/// The operators of the looser tier: sums, differences, comparisons.
pub open spec fn is_expr_operator(token: SpecToken) -> bool {
    token == SpecToken::Plus || token == SpecToken::Minus || token == SpecToken::GreaterThan
        || token == SpecToken::LessThan || token == SpecToken::Equal || token
        == SpecToken::NotEqual
}

/// The operators of the tighter tier: products and quotients.
pub open spec fn is_term_operator(token: SpecToken) -> bool {
    token == SpecToken::Star || token == SpecToken::Slash
}

/// Whether a statement list ends at `token`.
pub open spec fn ends_statements(token: SpecToken) -> bool {
    token == SpecToken::EOF || token == SpecToken::RBrace
}

/// The node for `left operator right`.
pub open spec fn binary(left: SpecNode, operator: SpecToken, right: SpecNode) -> SpecNode {
    SpecNode::BinaryOp(Box::new(left), operator, Box::new(right))
}

/// factor := '(' expr ')' | identifier | integer | string
pub open spec fn parse_factor(tokens: Seq<SpecToken>, pos: nat) -> Parsed<SpecNode>
    decreases remaining(tokens, pos), 0nat,
{
    match token_at(tokens, pos) {
        SpecToken::LParen => match parse_expr(tokens, pos + 1) {
            Ok((node, next)) => match expect(tokens, next, SpecToken::RParen) {
                Ok(after) => Ok((node, after)),
                Err(failure) => Err(failure),
            },
            Err(failure) => Err(failure),
        },
        SpecToken::Identifier(name) => Ok((SpecNode::Identifier(name), pos + 1)),
        SpecToken::Integer(value) => Ok((SpecNode::Integer(value), pos + 1)),
        SpecToken::StringLiteral(text) => Ok((SpecNode::StringLiteral(text), pos + 1)),
        found => Err(Failure { error: ParseError::UnexpectedInFactor { found }, at: pos }),
    }
}

/// The rest of a term whose operands so far make up `left`:
/// { ('*' | '/') factor }, grouped to the left.
pub open spec fn parse_term_tail(tokens: Seq<SpecToken>, pos: nat, left: SpecNode) -> Parsed<
    SpecNode,
>
    decreases remaining(tokens, pos), 1nat,
{
    let operator = token_at(tokens, pos);
    if is_term_operator(operator) {
        match parse_factor(tokens, pos + 1) {
            Ok((right, next)) => parse_term_tail(
                tokens,
                onward(pos + 1, next),
                binary(left, operator, right),
            ),
            Err(failure) => Err(failure),
        }
    } else {
        Ok((left, pos))
    }
}

/// term := factor { ('*' | '/') factor }
pub open spec fn parse_term(tokens: Seq<SpecToken>, pos: nat) -> Parsed<SpecNode>
    decreases remaining(tokens, pos), 2nat,
{
    match parse_factor(tokens, pos) {
        Ok((left, next)) => parse_term_tail(tokens, onward(pos, next), left),
        Err(failure) => Err(failure),
    }
}

/// The rest of an expression whose operands so far make up `left`:
/// { ('+' | '-' | '>' | '<' | '=' | '!') term }, grouped to the left.
pub open spec fn parse_expr_tail(tokens: Seq<SpecToken>, pos: nat, left: SpecNode) -> Parsed<
    SpecNode,
>
    decreases remaining(tokens, pos), 3nat,
{
    let operator = token_at(tokens, pos);
    if is_expr_operator(operator) {
        match parse_term(tokens, pos + 1) {
            Ok((right, next)) => parse_expr_tail(
                tokens,
                onward(pos + 1, next),
                binary(left, operator, right),
            ),
            Err(failure) => Err(failure),
        }
    } else {
        Ok((left, pos))
    }
}

/// expr := term { ('+' | '-' | '>' | '<' | '=' | '!') term }
pub open spec fn parse_expr(tokens: Seq<SpecToken>, pos: nat) -> Parsed<SpecNode>
    decreases remaining(tokens, pos), 4nat,
{
    match parse_term(tokens, pos) {
        Ok((left, next)) => parse_expr_tail(tokens, onward(pos, next), left),
        Err(failure) => Err(failure),
    }
}

/// let-stmt := 'let' identifier '=' expr ';'
pub open spec fn parse_let(tokens: Seq<SpecToken>, pos: nat) -> Parsed<SpecNode>
    decreases remaining(tokens, pos), 5nat,
{
    match expect(tokens, pos, SpecToken::Let) {
        Ok(at_name) => match token_at(tokens, at_name) {
            SpecToken::Identifier(name) => match expect(
                tokens,
                step(tokens, at_name),
                SpecToken::Equal,
            ) {
                Ok(at_value) => match parse_expr(tokens, at_value) {
                    Ok((value, next)) => match expect(tokens, next, SpecToken::Semicolon) {
                        Ok(after) => Ok((SpecNode::LetStmt(name, Box::new(value)), after)),
                        Err(failure) => Err(failure),
                    },
                    Err(failure) => Err(failure),
                },
                Err(failure) => Err(failure),
            },
            found => Err(
                Failure { error: ParseError::ExpectedIdentifier { found }, at: at_name },
            ),
        },
        Err(failure) => Err(failure),
    }
}

/// The condition of an `if` or a `while`: '(' expr ')'
pub open spec fn parse_condition(tokens: Seq<SpecToken>, pos: nat) -> Parsed<SpecNode>
    decreases remaining(tokens, pos), 5nat,
{
    match expect(tokens, pos, SpecToken::LParen) {
        Ok(inside) => match parse_expr(tokens, inside) {
            Ok((condition, next)) => match expect(tokens, next, SpecToken::RParen) {
                Ok(after) => Ok((condition, after)),
                Err(failure) => Err(failure),
            },
            Err(failure) => Err(failure),
        },
        Err(failure) => Err(failure),
    }
}

/// if-stmt := 'if' '(' expr ')' stmt [ 'else' stmt ]
///
/// An `else` belongs to the nearest `if` before it.
pub open spec fn parse_if(tokens: Seq<SpecToken>, pos: nat) -> Parsed<SpecNode>
    decreases remaining(tokens, pos), 6nat,
{
    match expect(tokens, pos, SpecToken::If) {
        Ok(at_condition) => match parse_condition(tokens, at_condition) {
            Ok((condition, at_then)) => match parse_statement(tokens, onward(pos + 1, at_then)) {
                Ok((then_branch, next)) => if token_at(tokens, next) == SpecToken::Else {
                    match parse_statement(tokens, onward(pos + 1, next + 1)) {
                        Ok((else_branch, after)) => Ok(
                            (
                                SpecNode::IfStmt(
                                    Box::new(condition),
                                    Box::new(then_branch),
                                    Some(Box::new(else_branch)),
                                ),
                                after,
                            ),
                        ),
                        Err(failure) => Err(failure),
                    }
                } else {
                    Ok(
                        (
                            SpecNode::IfStmt(Box::new(condition), Box::new(then_branch), None),
                            next,
                        ),
                    )
                },
                Err(failure) => Err(failure),
            },
            Err(failure) => Err(failure),
        },
        Err(failure) => Err(failure),
    }
}

/// while-stmt := 'while' '(' expr ')' stmt
pub open spec fn parse_while(tokens: Seq<SpecToken>, pos: nat) -> Parsed<SpecNode>
    decreases remaining(tokens, pos), 6nat,
{
    match expect(tokens, pos, SpecToken::While) {
        Ok(at_condition) => match parse_condition(tokens, at_condition) {
            Ok((condition, at_body)) => match parse_statement(tokens, onward(pos + 1, at_body)) {
                Ok((body, after)) => Ok(
                    (SpecNode::WhileStmt(Box::new(condition), Box::new(body)), after),
                ),
                Err(failure) => Err(failure),
            },
            Err(failure) => Err(failure),
        },
        Err(failure) => Err(failure),
    }
}

/// return-stmt := 'return' expr ';'
pub open spec fn parse_return(tokens: Seq<SpecToken>, pos: nat) -> Parsed<SpecNode>
    decreases remaining(tokens, pos), 5nat,
{
    match expect(tokens, pos, SpecToken::Return) {
        Ok(at_value) => match parse_expr(tokens, at_value) {
            Ok((value, next)) => match expect(tokens, next, SpecToken::Semicolon) {
                Ok(after) => Ok((SpecNode::ReturnStmt(Box::new(value)), after)),
                Err(failure) => Err(failure),
            },
            Err(failure) => Err(failure),
        },
        Err(failure) => Err(failure),
    }
}

/// The rest of a block whose statements so far are `done`: { stmt } '}'.
/// Where the tokens end before the block is closed, the operand that the
/// next statement would begin with is what is missing.
pub open spec fn parse_block_tail(tokens: Seq<SpecToken>, pos: nat, done: Seq<SpecNode>) -> Parsed<
    SpecNode,
>
    decreases remaining(tokens, pos), 8nat,
{
    if token_at(tokens, pos) == SpecToken::RBrace {
        Ok((SpecNode::Block(done), pos + 1))
    } else if pos >= tokens.len() {
        Err(
            Failure { error: ParseError::UnexpectedInFactor { found: SpecToken::EOF }, at: pos },
        )
    } else {
        match parse_statement(tokens, pos) {
            Ok((statement, next)) => parse_block_tail(
                tokens,
                onward(pos + 1, next),
                done.push(statement),
            ),
            Err(failure) => Err(failure),
        }
    }
}

/// block := '{' { stmt } '}'
pub open spec fn parse_block(tokens: Seq<SpecToken>, pos: nat) -> Parsed<SpecNode>
    decreases remaining(tokens, pos), 5nat,
{
    match expect(tokens, pos, SpecToken::LBrace) {
        Ok(inside) => parse_block_tail(tokens, inside, Seq::empty()),
        Err(failure) => Err(failure),
    }
}

/// expr-stmt := expr ';'
pub open spec fn parse_expr_stmt(tokens: Seq<SpecToken>, pos: nat) -> Parsed<SpecNode>
    decreases remaining(tokens, pos), 5nat,
{
    match parse_expr(tokens, pos) {
        Ok((value, next)) => match expect(tokens, next, SpecToken::Semicolon) {
            Ok(after) => Ok((SpecNode::ExprStmt(Box::new(value)), after)),
            Err(failure) => Err(failure),
        },
        Err(failure) => Err(failure),
    }
}

/// stmt := let-stmt | if-stmt | while-stmt | return-stmt | block | expr-stmt
///
/// The first token decides which.
pub open spec fn parse_statement(tokens: Seq<SpecToken>, pos: nat) -> Parsed<SpecNode>
    decreases remaining(tokens, pos), 7nat,
{
    match token_at(tokens, pos) {
        SpecToken::Let => parse_let(tokens, pos),
        SpecToken::If => parse_if(tokens, pos),
        SpecToken::While => parse_while(tokens, pos),
        SpecToken::Return => parse_return(tokens, pos),
        SpecToken::LBrace => parse_block(tokens, pos),
        _ => parse_expr_stmt(tokens, pos),
    }
}

/// The rest of a statement list whose statements so far are `done`. The
/// list stops, without consuming it, at the end-of-input marker or at a
/// closing brace.
pub open spec fn parse_statements(tokens: Seq<SpecToken>, pos: nat, done: Seq<SpecNode>) -> Parsed<
    Seq<SpecNode>,
>
    decreases remaining(tokens, pos), 8nat,
{
    if ends_statements(token_at(tokens, pos)) {
        Ok((done, pos))
    } else {
        match parse_statement(tokens, pos) {
            Ok((statement, next)) => parse_statements(
                tokens,
                onward(pos + 1, next),
                done.push(statement),
            ),
            Err(failure) => Err(failure),
        }
    }
}

/// program := stmt-list
pub open spec fn parse_program(tokens: Seq<SpecToken>, pos: nat) -> Parsed<SpecNode> {
    match parse_statements(tokens, pos, Seq::empty()) {
        Ok((statements, next)) => Ok((SpecNode::StmtList(statements), next)),
        Err(failure) => Err(failure),
    }
}

/// A parse that succeeds ends after the token it began at, within the tokens.
pub open spec fn advances<T>(tokens: Seq<SpecToken>, pos: nat, parsed: Parsed<T>) -> bool {
    parsed matches Ok((_, next)) ==> pos < next <= tokens.len()
}

/// A parse that succeeds ends at or after the token it began at, within the
/// tokens.
pub open spec fn stays_within<T>(tokens: Seq<SpecToken>, pos: nat, parsed: Parsed<T>) -> bool {
    parsed matches Ok((_, next)) ==> pos <= next <= tokens.len()
}

/// An operand spans at least one token.
pub proof fn lemma_factor_advances(tokens: Seq<SpecToken>, pos: nat)
    requires
        pos <= tokens.len(),
    ensures
        advances(tokens, pos, parse_factor(tokens, pos)),
    decreases remaining(tokens, pos), 0nat,
{
    if token_at(tokens, pos) == SpecToken::LParen {
        lemma_expr_advances(tokens, pos + 1);
    }
}

/// The rest of a term ends at or after the place where it begins.
pub proof fn lemma_term_tail_stays_within(tokens: Seq<SpecToken>, pos: nat, left: SpecNode)
    requires
        pos <= tokens.len(),
    ensures
        stays_within(tokens, pos, parse_term_tail(tokens, pos, left)),
    decreases remaining(tokens, pos), 1nat,
{
    let operator = token_at(tokens, pos);
    if is_term_operator(operator) {
        lemma_factor_advances(tokens, pos + 1);
        if let Ok((right, next)) = parse_factor(tokens, pos + 1) {
            lemma_term_tail_stays_within(tokens, next, binary(left, operator, right));
        }
    }
}

/// A term spans at least one token.
pub proof fn lemma_term_advances(tokens: Seq<SpecToken>, pos: nat)
    requires
        pos <= tokens.len(),
    ensures
        advances(tokens, pos, parse_term(tokens, pos)),
    decreases remaining(tokens, pos), 2nat,
{
    lemma_factor_advances(tokens, pos);
    if let Ok((left, next)) = parse_factor(tokens, pos) {
        lemma_term_tail_stays_within(tokens, next, left);
    }
}

/// The rest of an expression ends at or after the place where it begins.
pub proof fn lemma_expr_tail_stays_within(tokens: Seq<SpecToken>, pos: nat, left: SpecNode)
    requires
        pos <= tokens.len(),
    ensures
        stays_within(tokens, pos, parse_expr_tail(tokens, pos, left)),
    decreases remaining(tokens, pos), 3nat,
{
    let operator = token_at(tokens, pos);
    if is_expr_operator(operator) {
        lemma_term_advances(tokens, pos + 1);
        if let Ok((right, next)) = parse_term(tokens, pos + 1) {
            lemma_expr_tail_stays_within(tokens, next, binary(left, operator, right));
        }
    }
}

/// An expression spans at least one token.
pub proof fn lemma_expr_advances(tokens: Seq<SpecToken>, pos: nat)
    requires
        pos <= tokens.len(),
    ensures
        advances(tokens, pos, parse_expr(tokens, pos)),
    decreases remaining(tokens, pos), 4nat,
{
    lemma_term_advances(tokens, pos);
    if let Ok((left, next)) = parse_term(tokens, pos) {
        lemma_expr_tail_stays_within(tokens, next, left);
    }
}

/// A condition spans at least one token.
pub proof fn lemma_condition_advances(tokens: Seq<SpecToken>, pos: nat)
    requires
        pos <= tokens.len(),
    ensures
        advances(tokens, pos, parse_condition(tokens, pos)),
    decreases remaining(tokens, pos), 5nat,
{
    if let Ok(inside) = expect(tokens, pos, SpecToken::LParen) {
        lemma_expr_advances(tokens, inside);
    }
}

/// The rest of a block spans at least one token: the brace that closes it.
pub proof fn lemma_block_tail_advances(tokens: Seq<SpecToken>, pos: nat, done: Seq<SpecNode>)
    requires
        pos <= tokens.len(),
    ensures
        advances(tokens, pos, parse_block_tail(tokens, pos, done)),
    decreases remaining(tokens, pos), 8nat,
{
    if token_at(tokens, pos) != SpecToken::RBrace && pos < tokens.len() {
        lemma_statement_advances(tokens, pos);
        if let Ok((statement, next)) = parse_statement(tokens, pos) {
            lemma_block_tail_advances(tokens, next, done.push(statement));
        }
    }
}

/// A statement spans at least one token and ends within the tokens, so
/// parsing never moves back and never runs past the end.
pub proof fn lemma_statement_advances(tokens: Seq<SpecToken>, pos: nat)
    requires
        pos <= tokens.len(),
    ensures
        advances(tokens, pos, parse_statement(tokens, pos)),
    decreases remaining(tokens, pos), 7nat,
{
    match token_at(tokens, pos) {
        SpecToken::Let => {
            if let Ok(at_name) = expect(tokens, pos, SpecToken::Let) {
                if let Ok(at_value) = expect(tokens, step(tokens, at_name), SpecToken::Equal) {
                    lemma_expr_advances(tokens, at_value);
                }
            }
        },
        SpecToken::If => {
            lemma_condition_advances(tokens, pos + 1);
            if let Ok((condition, at_then)) = parse_condition(tokens, pos + 1) {
                lemma_statement_advances(tokens, at_then);
                if let Ok((then_branch, next)) = parse_statement(tokens, at_then) {
                    if token_at(tokens, next) == SpecToken::Else {
                        lemma_statement_advances(tokens, next + 1);
                    }
                }
            }
        },
        SpecToken::While => {
            lemma_condition_advances(tokens, pos + 1);
            if let Ok((condition, at_body)) = parse_condition(tokens, pos + 1) {
                lemma_statement_advances(tokens, at_body);
            }
        },
        SpecToken::Return => {
            lemma_expr_advances(tokens, pos + 1);
        },
        SpecToken::LBrace => {
            lemma_block_tail_advances(tokens, pos + 1, Seq::empty());
        },
        _ => {
            lemma_expr_advances(tokens, pos);
        },
    }
}

/// A statement list ends at or after the place where it begins, within the
/// tokens, and at a token that ends it.
pub proof fn lemma_statements_stay_within(tokens: Seq<SpecToken>, pos: nat, done: Seq<SpecNode>)
    requires
        pos <= tokens.len(),
    ensures
        stays_within(tokens, pos, parse_statements(tokens, pos, done)),
        parse_statements(tokens, pos, done) matches Ok((_, next)) ==> ends_statements(
            token_at(tokens, next),
        ),
    decreases remaining(tokens, pos), 8nat,
{
    if !ends_statements(token_at(tokens, pos)) {
        lemma_statement_advances(tokens, pos);
        if let Ok((statement, next)) = parse_statement(tokens, pos) {
            lemma_statements_stay_within(tokens, next, done.push(statement));
        }
    }
}

/// An `if` statement has an else-branch exactly where `else` follows its
/// then-statement. Its condition is the expression between the round
/// brackets, its then-branch the statement after them; where the next token
/// is `else`, the else-branch is the statement after that token, and
/// otherwise the `if` ends with its then-branch.
pub proof fn lemma_else_branch_follows_else(tokens: Seq<SpecToken>, pos: nat)
    requires
        pos <= tokens.len(),
        token_at(tokens, pos) == SpecToken::If,
        parse_statement(tokens, pos) is Ok,
    ensures
        ({
            let (node, after) = parse_statement(tokens, pos)->Ok_0;
            &&& parse_condition(tokens, pos + 1) matches Ok((condition, at_then))
            &&& parse_statement(tokens, at_then) matches Ok((then_branch, next))
            &&& node matches SpecNode::IfStmt(first, second, third)
            &&& *first == condition
            &&& *second == then_branch
            &&& (third is Some <==> token_at(tokens, next) == SpecToken::Else)
            &&& (third matches Some(else_branch) ==> parse_statement(tokens, next + 1) == Ok::<
                (SpecNode, nat),
                Failure,
            >((*else_branch, after)))
            &&& (third is None ==> after == next)
        }),
{
    assert(parse_statement(tokens, pos) == parse_if(tokens, pos));
    lemma_condition_advances(tokens, pos + 1);
    if let Ok((condition, at_then)) = parse_condition(tokens, pos + 1) {
        lemma_statement_advances(tokens, at_then);
        if let Ok((then_branch, next)) = parse_statement(tokens, at_then) {
            if token_at(tokens, next) == SpecToken::Else {
                lemma_statement_advances(tokens, next + 1);
            }
        }
    }
}

} // verus!

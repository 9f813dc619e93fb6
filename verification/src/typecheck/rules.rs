use crate::lexer::lexer::SpecToken;
use crate::parser::parser::SpecNode;
use crate::typecheck::typecheck::Type;
use vstd::prelude::*;

verus! {

/// One lexical scope: the names declared in it, each with its type.
pub type Scope = Map<Seq<char>, Type>;

/// The type that `name` has where `scopes` are open, the innermost last:
/// that of its innermost declaration, if it is declared at all.
pub open spec fn resolve(scopes: Seq<Scope>, name: Seq<char>) -> Option<Type>
    decreases scopes.len(),
{
    if scopes.len() == 0 {
        None
    } else if scopes.last().contains_key(name) {
        Some(scopes.last()[name])
    } else {
        resolve(scopes.drop_last(), name)
    }
}

/// Why a tree does not type-check.
pub enum TypeError {
    /// An arithmetic operator whose operands are not both integers.
    Incompatible { left: Type, right: Type, operator: SpecToken },
    /// A comparison whose operands differ in type.
    Incomparable { left: Type, right: Type, operator: SpecToken },
    /// A binary operation whose operator token is no operator.
    UnknownOperator { operator: SpecToken },
    /// A name that no open scope declares.
    Undeclared { name: Seq<char> },
    /// A name declared a second time in one scope.
    Duplicate { name: Seq<char> },
    /// An `if` whose condition is not Boolean.
    IfCondition,
    /// A `while` whose condition is not Boolean.
    WhileCondition,
    /// A node for which there is no rule.
    UnknownNode { node: SpecNode },
}

impl TypeError {
    /// The message that reports the error.
    pub open spec fn text(self) -> Seq<char> {
        match self {
            TypeError::Incompatible { left, right, operator } => "Type error: "@ + left.text()
                + " and "@ + right.text() + " are not compatible with "@ + operator.text(),
            TypeError::Incomparable { left, right, operator } => "Type error: "@ + left.text()
                + " and "@ + right.text() + " cannot be compared with "@ + operator.text(),
            TypeError::UnknownOperator { operator } => "Unknown binary operator: "@
                + operator.text(),
            TypeError::Undeclared { name } => "Undeclared variable: "@ + name,
            TypeError::Duplicate { name } => "Symbol '"@ + name + "' is already defined"@,
            TypeError::IfCondition => "Condition of if statement must be boolean"@,
            TypeError::WhileCondition => "Condition of while statement must be boolean"@,
            TypeError::UnknownNode { node } => "Unknown AST node type: "@ + node.text(),
        }
    }
}

/// What checking a tree comes to: its type or the first violation, and the
/// open scopes as the check leaves them.
pub struct Checked {
    pub outcome: Result<Type, TypeError>,
    pub scopes: Seq<Scope>,
}

/// The scopes after `name` is declared with type `typ` in the innermost of
/// them; a name that the innermost scope already holds cannot be declared
/// there again.
pub open spec fn declare(scopes: Seq<Scope>, name: Seq<char>, typ: Type) -> Result<
    Seq<Scope>,
    TypeError,
> {
    if scopes.last().contains_key(name) {
        Err(TypeError::Duplicate { name })
    } else {
        Ok(scopes.update(scopes.len() - 1, scopes.last().insert(name, typ)))
    }
}

/// The arithmetic operators: `+`, `-`, `*`, `/`.
pub open spec fn is_arithmetic(operator: SpecToken) -> bool {
    operator == SpecToken::Plus || operator == SpecToken::Minus || operator == SpecToken::Star
        || operator == SpecToken::Slash
}

/// The comparison operators: equal, not equal, less than, greater than.
pub open spec fn is_comparison(operator: SpecToken) -> bool {
    operator == SpecToken::Equal || operator == SpecToken::NotEqual || operator
        == SpecToken::LessThan || operator == SpecToken::GreaterThan
}

/// The type of a binary operation on operands of types `left` and `right`:
/// arithmetic takes two integers and gives an integer, a comparison takes
/// two operands of one type and gives a Boolean.
pub open spec fn binary_type(operator: SpecToken, left: Type, right: Type) -> Result<
    Type,
    TypeError,
> {
    if is_arithmetic(operator) {
        if left == Type::Integer && right == Type::Integer {
            Ok(Type::Integer)
        } else {
            Err(TypeError::Incompatible { left, right, operator })
        }
    } else if is_comparison(operator) {
        if left == right {
            Ok(Type::Boolean)
        } else {
            Err(TypeError::Incomparable { left, right, operator })
        }
    } else {
        Err(TypeError::UnknownOperator { operator })
    }
}

/// Checks the statements of a block from index `from` on, in order, and
/// stops at the first violation.
pub open spec fn check_each(statements: Seq<SpecNode>, from: nat, scopes: Seq<Scope>) -> Checked
    decreases statements, statements.len() - from,
{
    if from >= statements.len() {
        Checked { outcome: Ok(Type::Boolean), scopes }
    } else {
        let first = check(statements[from as int], scopes);
        if first.outcome is Ok {
            check_each(statements, from + 1, first.scopes)
        } else {
            first
        }
    }
}

/// Requires the condition of an `if` or a `while` to be Boolean: a
/// condition of another type is the violation `violation`.
pub open spec fn check_guarded(
    condition: Checked,
    violation: TypeError,
) -> Checked {
    match condition.outcome {
        Ok(Type::Boolean) => condition,
        Ok(_) => Checked { outcome: Err(violation), scopes: condition.scopes },
        Err(_) => condition,
    }
}

/// The typing rules: the type of `node` where `scopes` are open, or the
/// first violation met when the tree is walked parent first, left to right.
pub open spec fn check(node: SpecNode, scopes: Seq<Scope>) -> Checked
    decreases node, 0nat,
{
    match node {
        SpecNode::Integer(_) => Checked { outcome: Ok(Type::Integer), scopes },
        SpecNode::StringLiteral(_) => Checked { outcome: Ok(Type::String), scopes },
        SpecNode::Identifier(name) => Checked {
            outcome: match resolve(scopes, name) {
                Some(typ) => Ok(typ),
                None => Err(TypeError::Undeclared { name }),
            },
            scopes,
        },
        SpecNode::BinaryOp(left, operator, right) => {
            let lhs = check(*left, scopes);
            if lhs.outcome is Ok {
                let rhs = check(*right, lhs.scopes);
                if rhs.outcome is Ok {
                    Checked {
                        outcome: binary_type(operator, lhs.outcome->Ok_0, rhs.outcome->Ok_0),
                        scopes: rhs.scopes,
                    }
                } else {
                    rhs
                }
            } else {
                lhs
            }
        },
        SpecNode::LetStmt(name, value) => {
            let init = check(*value, scopes);
            if init.outcome is Ok {
                match declare(init.scopes, name, init.outcome->Ok_0) {
                    Ok(declared) => Checked { outcome: init.outcome, scopes: declared },
                    Err(e) => Checked { outcome: Err(e), scopes: init.scopes },
                }
            } else {
                init
            }
        },
        SpecNode::IfStmt(condition, then_branch, else_branch) => {
            let guard = check_guarded(check(*condition, scopes), TypeError::IfCondition);
            if guard.outcome is Ok {
                let first = check(*then_branch, guard.scopes);
                if first.outcome is Ok {
                    match else_branch {
                        Some(branch) => {
                            let second = check(*branch, first.scopes);
                            if second.outcome is Ok {
                                Checked { outcome: Ok(Type::Boolean), scopes: second.scopes }
                            } else {
                                second
                            }
                        },
                        None => Checked { outcome: Ok(Type::Boolean), scopes: first.scopes },
                    }
                } else {
                    first
                }
            } else {
                guard
            }
        },
        SpecNode::WhileStmt(condition, body) => {
            let guard = check_guarded(check(*condition, scopes), TypeError::WhileCondition);
            if guard.outcome is Ok {
                let inner = check(*body, guard.scopes);
                if inner.outcome is Ok {
                    Checked { outcome: Ok(Type::Boolean), scopes: inner.scopes }
                } else {
                    inner
                }
            } else {
                guard
            }
        },
        SpecNode::ReturnStmt(value) => check(*value, scopes),
        SpecNode::ExprStmt(value) => check(*value, scopes),
        SpecNode::Block(statements) => {
            let inner = check_each(statements, 0, scopes.push(Map::empty()));
            Checked { outcome: inner.outcome, scopes: inner.scopes.drop_last() }
        },
        SpecNode::Program(_) | SpecNode::StmtList(_) => Checked {
            outcome: Err(TypeError::UnknownNode { node }),
            scopes,
        },
    }
}

/// Checking the statements of a block changes the innermost scope at most:
/// no scope is opened or closed for good, and the enclosing scopes stay as
/// they were.
pub proof fn lemma_check_each_keeps_enclosing_scopes(
    statements: Seq<SpecNode>,
    from: nat,
    scopes: Seq<Scope>,
)
    requires
        scopes.len() >= 1,
    ensures
        check_each(statements, from, scopes).scopes.len() == scopes.len(),
        check_each(statements, from, scopes).scopes.drop_last() == scopes.drop_last(),
    decreases statements, statements.len() - from,
{
    if from < statements.len() {
        lemma_check_keeps_enclosing_scopes(statements[from as int], scopes);
        let first = check(statements[from as int], scopes);
        if first.outcome is Ok {
            lemma_check_each_keeps_enclosing_scopes(statements, from + 1, first.scopes);
        }
    }
}

/// Checking a tree changes the innermost scope at most: as many scopes are
/// open after the check as before it, whether it passed or not, and the
/// enclosing scopes stay as they were.
pub proof fn lemma_check_keeps_enclosing_scopes(node: SpecNode, scopes: Seq<Scope>)
    requires
        scopes.len() >= 1,
    ensures
        check(node, scopes).scopes.len() == scopes.len(),
        check(node, scopes).scopes.drop_last() == scopes.drop_last(),
    decreases node, 0nat,
{
    match node {
        SpecNode::BinaryOp(left, operator, right) => {
            lemma_check_keeps_enclosing_scopes(*left, scopes);
            let lhs = check(*left, scopes);
            if lhs.outcome is Ok {
                lemma_check_keeps_enclosing_scopes(*right, lhs.scopes);
            }
        },
        SpecNode::LetStmt(name, value) => {
            lemma_check_keeps_enclosing_scopes(*value, scopes);
            let init = check(*value, scopes);
            if init.outcome is Ok {
                if let Ok(declared) = declare(init.scopes, name, init.outcome->Ok_0) {
                    assert(declared.drop_last() =~= init.scopes.drop_last());
                }
            }
        },
        SpecNode::IfStmt(condition, then_branch, else_branch) => {
            lemma_check_keeps_enclosing_scopes(*condition, scopes);
            let guard = check_guarded(check(*condition, scopes), TypeError::IfCondition);
            if guard.outcome is Ok {
                lemma_check_keeps_enclosing_scopes(*then_branch, guard.scopes);
                let first = check(*then_branch, guard.scopes);
                if first.outcome is Ok {
                    if let Some(branch) = else_branch {
                        lemma_check_keeps_enclosing_scopes(*branch, first.scopes);
                    }
                }
            }
        },
        SpecNode::WhileStmt(condition, body) => {
            lemma_check_keeps_enclosing_scopes(*condition, scopes);
            let guard = check_guarded(check(*condition, scopes), TypeError::WhileCondition);
            if guard.outcome is Ok {
                lemma_check_keeps_enclosing_scopes(*body, guard.scopes);
            }
        },
        SpecNode::ReturnStmt(value) => {
            lemma_check_keeps_enclosing_scopes(*value, scopes);
        },
        SpecNode::ExprStmt(value) => {
            lemma_check_keeps_enclosing_scopes(*value, scopes);
        },
        SpecNode::Block(statements) => {
            lemma_block_forgets_its_declarations(statements, scopes);
        },
        _ => {},
    }
}

/// What a block declares is invisible once the block is done: checking a
/// block leaves every open scope as it was, whether the block passed or not.
pub proof fn lemma_block_forgets_its_declarations(statements: Seq<SpecNode>, scopes: Seq<Scope>)
    ensures
        check(SpecNode::Block(statements), scopes).scopes == scopes,
    decreases statements, statements.len() + 1,
{
    let entered = scopes.push(Map::empty());
    lemma_check_each_keeps_enclosing_scopes(statements, 0, entered);
    assert(entered.drop_last() =~= scopes);
}

/// Shadowing is permitted: in a scope that was just opened any name can be
/// declared, whatever the enclosing scopes hold.
pub proof fn lemma_fresh_scope_accepts_any_name(scopes: Seq<Scope>, name: Seq<char>, typ: Type)
    ensures
        declare(scopes.push(Map::empty()), name, typ) is Ok,
        resolve(declare(scopes.push(Map::empty()), name, typ)->Ok_0, name) == Some(typ),
{
}

/// A name cannot be declared twice in one scope: after a declaration of
/// `name` a second one in the same scope is refused.
pub proof fn lemma_second_declaration_is_refused(
    scopes: Seq<Scope>,
    name: Seq<char>,
    first: Type,
    second: Type,
)
    requires
        scopes.len() >= 1,
        declare(scopes, name, first) is Ok,
    ensures
        declare(declare(scopes, name, first)->Ok_0, name, second) == Err::<
            Seq<Scope>,
            TypeError,
        >(TypeError::Duplicate { name }),
{
}

} // verus!

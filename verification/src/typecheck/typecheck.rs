use crate::lexer::lexer::Token;
use crate::parser::parser::{view_all, ASTNode, SpecNode};
use crate::typecheck::rules::{binary_type, check, check_each, declare, resolve, Scope};
use vstd::hash_map::StringHashMap;
use vstd::prelude::*;
use vstd::string::StringExecFns;

verus! {

/// The type of a value.
#[derive(Debug, Clone, Copy, PartialEq, Eq, Structural)]
pub enum Type {
    Integer,
    String,
    Boolean,
}

impl Type {
    /// The type's name, as error messages show it.
    pub open spec fn text(self) -> Seq<char> {
        match self {
            Type::Integer => "Integer"@,
            Type::String => "String"@,
            Type::Boolean => "Boolean"@,
        }
    }

    /// Appends the type's name to `out`.
    pub fn push_text(self, out: &mut std::string::String)
        ensures
            final(out)@ == old(out)@ + self.text(),
    {
        match self {
            Type::Integer => out.append("Integer"),
            Type::String => out.append("String"),
            Type::Boolean => out.append("Boolean"),
        }
    }
}

/// A variable as it was declared: its name and its type.
#[derive(Debug)]
pub struct SymbolEntry {
    pub name: std::string::String,
    pub typ: Type,
}

impl Clone for SymbolEntry {
    fn clone(&self) -> (copy: SymbolEntry)
        ensures
            copy.name@ == self.name@,
            copy.typ == self.typ,
    {
        SymbolEntry { name: self.name.clone(), typ: self.typ }
    }
}

/// A scope: the variables declared in it, and the scope that encloses it,
/// if there is one.
pub struct SymbolTable {
    symbols: StringHashMap<SymbolEntry>,
    names: Vec<std::string::String>,
    parent: Option<Box<SymbolTable>>,
}

impl SymbolTable {
    /// Every entry is filed under its own name, and the names on record are
    /// those of the entries, in this scope and in those that enclose it.
    pub closed spec fn well_formed(&self) -> bool
        decreases self,
    {
        &&& forall|name: Seq<char>| #[trigger]
            self.symbols@.contains_key(name) ==> self.symbols@[name].name@ == name
        &&& forall|name: Seq<char>| #[trigger]
            self.symbols@.contains_key(name) ==> self.records(name)
        &&& forall|i: int|
            0 <= i < self.names.len() ==> self.symbols@.contains_key((#[trigger] self.names[i])@)
        &&& match self.parent {
            Some(enclosing) => enclosing.well_formed(),
            None => true,
        }
    }

    /// Whether `name` is among the names on record.
    spec fn records(&self, name: Seq<char>) -> bool {
        exists|i: int| 0 <= i < self.names.len() && (#[trigger] self.names[i])@ == name
    }

    /// The names declared in this scope itself, each with its type.
    pub closed spec fn local(&self) -> Scope {
        Map::new(
            |name: Seq<char>| self.symbols@.contains_key(name),
            |name: Seq<char>| self.symbols@[name].typ,
        )
    }

    /// The chain of scopes that ends in this one: the outermost first, this
    /// scope last.
    pub closed spec fn view(&self) -> Seq<Scope>
        decreases self,
    {
        match self.parent {
            Some(enclosing) => enclosing.view().push(self.local()),
            None => seq![self.local()],
        }
    }

    /// An empty scope, inside `parent` if one is given.
    pub fn new(parent: Option<Box<SymbolTable>>) -> (table: SymbolTable)
        requires
            parent matches Some(enclosing) ==> enclosing.well_formed(),
        ensures
            table.well_formed(),
            table@ == match parent {
                Some(enclosing) => enclosing@.push(Map::empty()),
                None => seq![Map::empty()],
            },
    {
        let table = SymbolTable { symbols: StringHashMap::new(), names: Vec::new(), parent };
        assert(table.local() =~= Map::empty());
        table
    }

    /// The number of variables declared in this scope itself.
    pub fn len(&self) -> (count: usize)
        ensures
            count == self@.last().len(),
    {
        assert(self@.last() == self.local());
        assert(self.local().dom() =~= self.symbols@.dom());
        self.symbols.len()
    }

    /// The scope that encloses this one, if there is one.
    pub fn parent(&self) -> (enclosing: Option<&SymbolTable>)
        ensures
            match enclosing {
                Some(table) => self@ == table@.push(self@.last()) && (self.well_formed()
                    ==> table.well_formed()),
                None => self@.len() == 1,
            },
    {
        match &self.parent {
            Some(table) => Some(&**table),
            None => None,
        }
    }

    /// Declares `name` with type `typ` in this scope. A name that this scope
    /// already holds is refused, and the scope stays as it was; what an
    /// enclosing scope holds does not matter.
    pub fn insert(&mut self, name: std::string::String, typ: Type) -> (result: Result<
        (),
        std::string::String,
    >)
        requires
            old(self).well_formed(),
        ensures
            final(self).well_formed(),
            old(self)@.len() >= 1,
            match declare(old(self)@, name@, typ) {
                Ok(scopes) => result is Ok && final(self)@ == scopes,
                Err(e) => result matches Err(message) && message@ == e.text() && final(self)@
                    == old(self)@,
            },
    {
        if self.symbols.contains_key(name.as_str()) {
            let mut message = std::string::String::from_str("Symbol '");
            message.append(name.as_str());
            message.append("' is already defined");
            Err(message)
        } else {
            let ghost before = self.local();
            let entry = SymbolEntry { name: name.clone(), typ };
            self.names.push(name.clone());
            self.symbols.insert(name, entry);
            assert(self.local() =~= before.insert(name@, typ));
            assert forall|known: Seq<char>| #[trigger]
                self.symbols@.contains_key(known) implies self.records(known) by {
                if known == name@ {
                    assert(self.names[self.names.len() - 1]@ == known);
                } else {
                    assert(old(self).records(known));
                    let i = choose|i: int|
                        0 <= i < old(self).names.len() && (#[trigger] old(self).names[i])@
                            == known;
                    assert(self.names[i]@ == known);
                }
            }
            assert(self@ =~= old(self)@.update(old(self)@.len() - 1, before.insert(name@, typ)));
            Ok(())
        }
    }

    /// Looks `name` up in this scope and then, outwards, in the scopes that
    /// enclose it.
    pub fn lookup(&self, name: &str) -> (found: Option<&SymbolEntry>)
        requires
            self.well_formed(),
        ensures
            match resolve(self@, name@) {
                Some(typ) => found matches Some(entry) && entry.name@ == name@ && entry.typ == typ,
                None => found is None,
            },
        decreases self,
    {
        assert(self@.last() == self.local());
        match self.symbols.get(name) {
            Some(entry) => Some(entry),
            None => match &self.parent {
                Some(enclosing) => {
                    assert(self@.drop_last() =~= enclosing@);
                    enclosing.lookup(name)
                },
                None => {
                    assert(self@.drop_last() =~= Seq::<Scope>::empty());
                    assert(resolve(self@.drop_last(), name@) is None);
                    None
                },
            },
        }
    }
}

impl Clone for SymbolTable {
    /// A copy of the scope and of the scopes that enclose it.
    fn clone(&self) -> (copy: SymbolTable)
        ensures
            self.well_formed() ==> copy.well_formed() && copy@ == self@,
        decreases self,
    {
        let mut symbols: StringHashMap<SymbolEntry> = StringHashMap::new();
        let mut names: Vec<std::string::String> = Vec::new();
        let mut i: usize = 0;
        while i < self.names.len()
            invariant
                i <= self.names.len(),
                names.len() == i,
                forall|j: int| 0 <= j < i ==> (#[trigger] names[j])@ == self.names[j]@,
                self.well_formed() ==> forall|name: Seq<char>| #[trigger]
                    symbols@.contains_key(name) ==> {
                        &&& self.symbols@.contains_key(name)
                        &&& symbols@[name].name@ == name
                        &&& symbols@[name].typ == self.symbols@[name].typ
                        &&& exists|j: int| 0 <= j < i && (#[trigger] self.names[j])@ == name
                    },
                self.well_formed() ==> forall|j: int|
                    0 <= j < i ==> symbols@.contains_key((#[trigger] self.names[j])@),
            decreases self.names.len() - i,
        {
            let name = &self.names[i];
            match self.symbols.get(name.as_str()) {
                Some(entry) => {
                    symbols.insert(name.clone(), entry.clone());
                },
                None => {},
            }
            names.push(name.clone());
            i = i + 1;
        }
        let parent = match &self.parent {
            Some(enclosing) => Some(Box::new((&**enclosing).clone())),
            None => None,
        };
        let copy = SymbolTable { symbols, names, parent };
        proof {
            if self.well_formed() {
                assert forall|name: Seq<char>| #[trigger]
                    copy.symbols@.contains_key(name) implies copy.records(name) by {
                    let j = choose|j: int|
                        0 <= j < self.names.len() && (#[trigger] self.names[j])@ == name;
                    assert(copy.names[j]@ == name);
                }
                assert forall|name: Seq<char>| #[trigger]
                    self.symbols@.contains_key(name) implies copy.symbols@.contains_key(name) by {
                    assert(self.records(name));
                }
                assert(copy.local() =~= self.local());
                assert(copy.well_formed());
                assert(copy@ == self@);
            }
        }
        copy
    }
}

/// The message for a binary operation whose operands do not fit its
/// operator: `verdict` says in what way.
fn operands_message(left: Type, right: Type, verdict: &str, operator: &Token) -> (message:
    std::string::String)
    ensures
        message@ == "Type error: "@ + left.text() + " and "@ + right.text() + verdict@
            + operator@.text(),
{
    let mut message = std::string::String::from_str("Type error: ");
    left.push_text(&mut message);
    message.append(" and ");
    right.push_text(&mut message);
    message.append(verdict);
    operator.push_text(&mut message);
    assert(message@ =~= "Type error: "@ + left.text() + " and "@ + right.text() + verdict@
        + operator@.text());
    message
}

/// The type of a binary operation on operands of the given types, or the
/// message that says why it has none.
fn binary_result(operator: &Token, left: Type, right: Type) -> (result: Result<
    Type,
    std::string::String,
>)
    ensures
        match binary_type(operator@, left, right) {
            Ok(typ) => result == Ok::<Type, std::string::String>(typ),
            Err(e) => result matches Err(message) && message@ == e.text(),
        },
{
    match operator {
        Token::Plus | Token::Minus | Token::Star | Token::Slash => {
            if left == Type::Integer && right == Type::Integer {
                Ok(Type::Integer)
            } else {
                Err(operands_message(left, right, " are not compatible with ", operator))
            }
        },
        Token::Equal | Token::NotEqual | Token::LessThan | Token::GreaterThan => {
            if left == right {
                Ok(Type::Boolean)
            } else {
                Err(operands_message(left, right, " cannot be compared with ", operator))
            }
        },
        _ => {
            let mut message = std::string::String::from_str("Unknown binary operator: ");
            operator.push_text(&mut message);
            Err(message)
        },
    }
}

/// The semantic analyzer: it walks a tree and keeps the scopes that are open,
/// the innermost last.
pub struct SemanticAnalyzer {
    scopes: Vec<SymbolTable>,
}

impl SemanticAnalyzer {
    /// At least the global scope is open, and the open scopes are kept as a
    /// stack: none of them holds a copy of the scope that encloses it.
    pub closed spec fn well_formed(&self) -> bool {
        &&& self.scopes.len() >= 1
        &&& forall|i: int|
            0 <= i < self.scopes.len() ==> (#[trigger] self.scopes[i]).well_formed()
                && self.scopes[i]@.len() == 1
    }

    /// The open scopes, the global scope first and the innermost last.
    pub closed spec fn view(&self) -> Seq<Scope> {
        Seq::new(self.scopes.len() as nat, |i: int| self.scopes[i]@.last())
    }

    /// The scope stack is never empty.
    pub proof fn lemma_global_scope_is_open(&self)
        requires
            self.well_formed(),
        ensures
            self@.len() >= 1,
    {
    }

    /// An analyzer in which the global scope alone is open, and empty.
    pub fn new() -> (analyzer: SemanticAnalyzer)
        ensures
            analyzer.well_formed(),
            analyzer@ == seq![Map::<Seq<char>, Type>::empty()],
    {
        let mut scopes: Vec<SymbolTable> = Vec::new();
        scopes.push(SymbolTable::new(None));
        let analyzer = SemanticAnalyzer { scopes };
        assert(analyzer@ =~= seq![Map::<Seq<char>, Type>::empty()]);
        analyzer
    }

    /// Opens a new, empty scope inside the current one.
    pub fn enter_scope(&mut self)
        requires
            old(self).well_formed(),
        ensures
            final(self).well_formed(),
            final(self)@ == old(self)@.push(Map::empty()),
    {
        self.scopes.push(SymbolTable::new(None));
        assert(self@ =~= old(self)@.push(Map::empty()));
    }

    /// Closes the innermost scope; what was declared in it is forgotten.
    /// The global scope stays open to the end.
    pub fn exit_scope(&mut self)
        requires
            old(self).well_formed(),
            old(self)@.len() > 1,
        ensures
            final(self).well_formed(),
            final(self)@ == old(self)@.drop_last(),
    {
        self.scopes.pop();
        assert(self@ =~= old(self)@.drop_last());
    }

    /// Declares `name` with type `typ` in the innermost scope. A name that
    /// this scope already holds is refused; one that only an enclosing scope
    /// holds is shadowed.
    pub fn declare_variable(&mut self, name: std::string::String, typ: Type) -> (result: Result<
        (),
        std::string::String,
    >)
        requires
            old(self).well_formed(),
        ensures
            final(self).well_formed(),
            match declare(old(self)@, name@, typ) {
                Ok(scopes) => result is Ok && final(self)@ == scopes,
                Err(e) => result matches Err(message) && message@ == e.text() && final(self)@
                    == old(self)@,
            },
    {
        let last = self.scopes.len() - 1;
        self.scopes[last].insert(name, typ)
    }

    /// The type of `name`: that of its innermost declaration in the open
    /// scopes, or nothing where no open scope declares it.
    pub fn lookup_variable(&self, name: &str) -> (found: Option<&Type>)
        requires
            self.well_formed(),
        ensures
            match resolve(self@, name@) {
                Some(typ) => found == Some(&typ),
                None => found is None,
            },
    {
        let mut i = self.scopes.len();
        assert(self@.take(i as int) =~= self@);
        while i > 0
            invariant
                self.well_formed(),
                i <= self.scopes.len(),
                resolve(self@, name@) == resolve(self@.take(i as int), name@),
            decreases i,
        {
            i = i - 1;
            let ghost open = self@.take(i + 1);
            assert(open.drop_last() =~= self@.take(i as int));
            assert(open.last() == self.scopes[i as int]@.last());
            assert(self.scopes[i as int]@.drop_last() =~= Seq::<Scope>::empty());
            assert(resolve(self.scopes[i as int]@.drop_last(), name@) is None);
            match self.scopes[i].lookup(name) {
                Some(entry) => {
                    return Some(&entry.typ);
                },
                None => {},
            }
        }
        assert(self@.take(0) =~= Seq::<Scope>::empty());
        None
    }

    /// Checks the types of the tree under `node` in the open scopes.
    ///
    /// The tree is walked parent first, operands left to right, branches in
    /// source order, and the walk stops at the first violation, which the
    /// message reports. A `let` declares its name in the innermost open
    /// scope; a block opens a scope of its own and closes it when it is
    /// done, whether its statements passed or not.
    pub fn check_types(&mut self, node: &ASTNode) -> (result: Result<Type, std::string::String>)
        requires
            old(self).well_formed(),
        ensures
            final(self).well_formed(),
            final(self)@ == check(node@, old(self)@).scopes,
            final(self)@.len() == old(self)@.len(),
            match check(node@, old(self)@).outcome {
                Ok(typ) => result == Ok::<Type, std::string::String>(typ),
                Err(e) => result matches Err(message) && message@ == e.text(),
            },
        decreases node,
    {
        match node {
            ASTNode::BinaryOp(left, token, right) => {
                let left_type = self.check_types(left)?;
                let right_type = self.check_types(right)?;
                binary_result(token, left_type, right_type)
            },
            ASTNode::Identifier(name) => {
                match self.lookup_variable(name.as_str()) {
                    Some(typ) => Ok(*typ),
                    None => {
                        let mut message = std::string::String::from_str("Undeclared variable: ");
                        message.append(name.as_str());
                        Err(message)
                    },
                }
            },
            ASTNode::Integer(_) => Ok(Type::Integer),
            ASTNode::StringLiteral(_) => Ok(Type::String),
            ASTNode::LetStmt(name, expr) => {
                let expr_type = self.check_types(expr)?;
                self.declare_variable(name.clone(), expr_type)?;
                Ok(expr_type)
            },
            ASTNode::IfStmt(condition, then_branch, else_branch) => {
                let cond_type = self.check_types(condition)?;
                if cond_type != Type::Boolean {
                    return Err(
                        std::string::String::from_str("Condition of if statement must be boolean"),
                    );
                }
                self.check_types(then_branch)?;
                if let Some(else_branch) = else_branch {
                    self.check_types(else_branch)?;
                }
                Ok(Type::Boolean)
            },
            ASTNode::WhileStmt(condition, body) => {
                let cond_type = self.check_types(condition)?;
                if cond_type != Type::Boolean {
                    return Err(
                        std::string::String::from_str(
                            "Condition of while statement must be boolean",
                        ),
                    );
                }
                self.check_types(body)?;
                Ok(Type::Boolean)
            },
            ASTNode::ReturnStmt(expr) => self.check_types(expr),
            ASTNode::Block(statements) => {
                proof {
                    node.lemma_view_of_list();
                }
                let ghost inner = view_all(statements@);
                self.enter_scope();
                let mut i: usize = 0;
                while i < statements.len()
                    invariant
                        self.well_formed(),
                        i <= statements.len(),
                        *node == ASTNode::Block(*statements),
                        node@ == SpecNode::Block(inner),
                        inner == view_all(statements@),
                        self@.len() == old(self)@.len() + 1,
                        old(self)@.len() >= 1,
                        check_each(inner, 0, old(self)@.push(Map::empty())) == check_each(
                            inner,
                            i as nat,
                            self@,
                        ),
                    decreases statements.len() - i,
                {
                    let ghost before = self@;
                    assert(inner[i as int] == statements[i as int]@);
                    match self.check_types(&statements[i]) {
                        Ok(_) => {
                            assert(check_each(inner, i as nat, before) == check_each(
                                inner,
                                (i + 1) as nat,
                                self@,
                            ));
                        },
                        Err(message) => {
                            assert(check_each(inner, i as nat, before) == check(
                                inner[i as int],
                                before,
                            ));
                            self.exit_scope();
                            return Err(message);
                        },
                    }
                    i = i + 1;
                }
                self.exit_scope();
                Ok(Type::Boolean)
            },
            ASTNode::ExprStmt(expr) => self.check_types(expr),
            ASTNode::Program(_) | ASTNode::StmtList(_) => {
                let mut message = std::string::String::from_str("Unknown AST node type: ");
                node.push_text(&mut message);
                Err(message)
            },
        }
    }
}

} // verus!

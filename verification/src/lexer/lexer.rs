use crate::lexer::scan::{
    continues_word, decimal_value, is_blank, is_digit, lemma_run_end_is, run_end, scan_token,
    starts_word, word_token, CharClass,
};
use crate::text::{decimal_text, push_decimal, push_quoted, quoted};
use vstd::prelude::*;
use vstd::string::{StrSliceExecFns, StringExecFns};

verus! {

/// The smallest classified unit of source text.
#[derive(Debug, PartialEq)]
pub enum Token {
    Let,
    If,
    Fn,
    Else,
    While,
    Return,
    Identifier(String),
    Integer(i64),
    StringLiteral(String),
    Plus,
    Minus,
    Star,
    Slash,
    Equal,
    NotEqual,
    LessThan,
    GreaterThan,
    LParen,
    RParen,
    LBrace,
    RBrace,
    Comma,
    Semicolon,
    EOF,
}

/// A token as a mathematical value: the text it carries is a sequence of
/// characters.
pub enum SpecToken {
    Let,
    If,
    Fn,
    Else,
    While,
    Return,
    Identifier(Seq<char>),
    Integer(i64),
    StringLiteral(Seq<char>),
    Plus,
    Minus,
    Star,
    Slash,
    Equal,
    NotEqual,
    LessThan,
    GreaterThan,
    LParen,
    RParen,
    LBrace,
    RBrace,
    Comma,
    Semicolon,
    EOF,
}

impl View for Token {
    type V = SpecToken;

    open spec fn view(&self) -> SpecToken {
        match self {
            Token::Let => SpecToken::Let,
            Token::If => SpecToken::If,
            Token::Fn => SpecToken::Fn,
            Token::Else => SpecToken::Else,
            Token::While => SpecToken::While,
            Token::Return => SpecToken::Return,
            Token::Identifier(name) => SpecToken::Identifier(name@),
            Token::Integer(value) => SpecToken::Integer(*value),
            Token::StringLiteral(text) => SpecToken::StringLiteral(text@),
            Token::Plus => SpecToken::Plus,
            Token::Minus => SpecToken::Minus,
            Token::Star => SpecToken::Star,
            Token::Slash => SpecToken::Slash,
            Token::Equal => SpecToken::Equal,
            Token::NotEqual => SpecToken::NotEqual,
            Token::LessThan => SpecToken::LessThan,
            Token::GreaterThan => SpecToken::GreaterThan,
            Token::LParen => SpecToken::LParen,
            Token::RParen => SpecToken::RParen,
            Token::LBrace => SpecToken::LBrace,
            Token::RBrace => SpecToken::RBrace,
            Token::Comma => SpecToken::Comma,
            Token::Semicolon => SpecToken::Semicolon,
            Token::EOF => SpecToken::EOF,
        }
    }
}

impl SpecToken {
    /// The token as error messages show it: the name of its kind and, in
    /// round brackets, what it carries (a text quoted, a number in base ten).
    pub open spec fn text(self) -> Seq<char> {
        match self {
            SpecToken::Let => "Let"@,
            SpecToken::If => "If"@,
            SpecToken::Fn => "Fn"@,
            SpecToken::Else => "Else"@,
            SpecToken::While => "While"@,
            SpecToken::Return => "Return"@,
            SpecToken::Identifier(name) => "Identifier("@ + quoted(name) + ")"@,
            SpecToken::Integer(value) => "Integer("@ + decimal_text(value as int) + ")"@,
            SpecToken::StringLiteral(text) => "StringLiteral("@ + quoted(text) + ")"@,
            SpecToken::Plus => "Plus"@,
            SpecToken::Minus => "Minus"@,
            SpecToken::Star => "Star"@,
            SpecToken::Slash => "Slash"@,
            SpecToken::Equal => "Equal"@,
            SpecToken::NotEqual => "NotEqual"@,
            SpecToken::LessThan => "LessThan"@,
            SpecToken::GreaterThan => "GreaterThan"@,
            SpecToken::LParen => "LParen"@,
            SpecToken::RParen => "RParen"@,
            SpecToken::LBrace => "LBrace"@,
            SpecToken::RBrace => "RBrace"@,
            SpecToken::Comma => "Comma"@,
            SpecToken::Semicolon => "Semicolon"@,
            SpecToken::EOF => "EOF"@,
        }
    }
}

impl Token {
    /// Whether the two tokens are of the same kind and carry the same value.
    pub fn equals(&self, other: &Token) -> (same: bool)
        ensures
            same == (self@ == other@),
    {
        match self {
            Token::Identifier(a) => match other {
                Token::Identifier(b) => *a == *b,
                _ => false,
            },
            Token::Integer(a) => match other {
                Token::Integer(b) => *a == *b,
                _ => false,
            },
            Token::StringLiteral(a) => match other {
                Token::StringLiteral(b) => *a == *b,
                _ => false,
            },
            Token::Let => match other {
                Token::Let => true,
                _ => false,
            },
            Token::If => match other {
                Token::If => true,
                _ => false,
            },
            Token::Fn => match other {
                Token::Fn => true,
                _ => false,
            },
            Token::Else => match other {
                Token::Else => true,
                _ => false,
            },
            Token::While => match other {
                Token::While => true,
                _ => false,
            },
            Token::Return => match other {
                Token::Return => true,
                _ => false,
            },
            Token::Plus => match other {
                Token::Plus => true,
                _ => false,
            },
            Token::Minus => match other {
                Token::Minus => true,
                _ => false,
            },
            Token::Star => match other {
                Token::Star => true,
                _ => false,
            },
            Token::Slash => match other {
                Token::Slash => true,
                _ => false,
            },
            Token::Equal => match other {
                Token::Equal => true,
                _ => false,
            },
            Token::NotEqual => match other {
                Token::NotEqual => true,
                _ => false,
            },
            Token::LessThan => match other {
                Token::LessThan => true,
                _ => false,
            },
            Token::GreaterThan => match other {
                Token::GreaterThan => true,
                _ => false,
            },
            Token::LParen => match other {
                Token::LParen => true,
                _ => false,
            },
            Token::RParen => match other {
                Token::RParen => true,
                _ => false,
            },
            Token::LBrace => match other {
                Token::LBrace => true,
                _ => false,
            },
            Token::RBrace => match other {
                Token::RBrace => true,
                _ => false,
            },
            Token::Comma => match other {
                Token::Comma => true,
                _ => false,
            },
            Token::Semicolon => match other {
                Token::Semicolon => true,
                _ => false,
            },
            Token::EOF => match other {
                Token::EOF => true,
                _ => false,
            },
        }
    }

    /// Appends the token to `out` as error messages show it.
    pub fn push_text(&self, out: &mut String)
        ensures
            final(out)@ == old(out)@ + self@.text(),
    {
        match self {
            Token::Let => out.append("Let"),
            Token::If => out.append("If"),
            Token::Fn => out.append("Fn"),
            Token::Else => out.append("Else"),
            Token::While => out.append("While"),
            Token::Return => out.append("Return"),
            Token::Identifier(name) => {
                out.append("Identifier(");
                push_quoted(out, name.as_str());
                out.append(")");
                assert(out@ =~= old(out)@ + self@.text());
            },
            Token::Integer(value) => {
                out.append("Integer(");
                push_decimal(out, *value);
                out.append(")");
                assert(out@ =~= old(out)@ + self@.text());
            },
            Token::StringLiteral(text) => {
                out.append("StringLiteral(");
                push_quoted(out, text.as_str());
                out.append(")");
                assert(out@ =~= old(out)@ + self@.text());
            },
            Token::Plus => out.append("Plus"),
            Token::Minus => out.append("Minus"),
            Token::Star => out.append("Star"),
            Token::Slash => out.append("Slash"),
            Token::Equal => out.append("Equal"),
            Token::NotEqual => out.append("NotEqual"),
            Token::LessThan => out.append("LessThan"),
            Token::GreaterThan => out.append("GreaterThan"),
            Token::LParen => out.append("LParen"),
            Token::RParen => out.append("RParen"),
            Token::LBrace => out.append("LBrace"),
            Token::RBrace => out.append("RBrace"),
            Token::Comma => out.append("Comma"),
            Token::Semicolon => out.append("Semicolon"),
            Token::EOF => out.append("EOF"),
        }
    }
}

/// Why no token can be produced at some place in the source.
#[derive(Debug, PartialEq, Eq, Clone, Copy)]
pub enum LexError {
    /// A character that begins no token.
    UnexpectedChar(char),
    /// A string literal whose closing quote is missing.
    UnterminatedString,
    /// An integer literal above the largest 64-bit signed value.
    IntegerOverflow,
}

impl LexError {
    /// The message that reports the fault.
    pub open spec fn text(self) -> Seq<char> {
        match self {
            LexError::UnexpectedChar(c) => "Unexpected character: "@.push(c),
            LexError::UnterminatedString => "Unterminated string literal"@,
            LexError::IntegerOverflow => "number too large to fit in target type"@,
        }
    }

    /// The message that reports the fault.
    pub fn message(&self) -> (message: String)
        ensures
            message@ == self.text(),
    {
        match self {
            LexError::UnexpectedChar(c) => {
                let mut message = String::from_str("Unexpected character: ");
                message.push(*c);
                message
            },
            LexError::UnterminatedString => String::from_str("Unterminated string literal"),
            LexError::IntegerOverflow => String::from_str(
                "number too large to fit in target type",
            ),
        }
    }
}

impl Clone for Token {
    fn clone(&self) -> (copy: Token)
        ensures
            copy@ == self@,
    {
        match self {
            Token::Let => Token::Let,
            Token::If => Token::If,
            Token::Fn => Token::Fn,
            Token::Else => Token::Else,
            Token::While => Token::While,
            Token::Return => Token::Return,
            Token::Identifier(name) => Token::Identifier(name.clone()),
            Token::Integer(value) => Token::Integer(*value),
            Token::StringLiteral(text) => Token::StringLiteral(text.clone()),
            Token::Plus => Token::Plus,
            Token::Minus => Token::Minus,
            Token::Star => Token::Star,
            Token::Slash => Token::Slash,
            Token::Equal => Token::Equal,
            Token::NotEqual => Token::NotEqual,
            Token::LessThan => Token::LessThan,
            Token::GreaterThan => Token::GreaterThan,
            Token::LParen => Token::LParen,
            Token::RParen => Token::RParen,
            Token::LBrace => Token::LBrace,
            Token::RBrace => Token::RBrace,
            Token::Comma => Token::Comma,
            Token::Semicolon => Token::Semicolon,
            Token::EOF => Token::EOF,
        }
    }
}

/// A scanner over a source text: it hands out the tokens one at a time.
pub struct Lexer {
    input: Vec<char>,
    position: usize,
}

impl Lexer {
    #[verifier::type_invariant]
    spec fn well_formed(&self) -> bool {
        self.position <= self.input.len()
    }

    /// The characters of the source text.
    pub closed spec fn source(&self) -> Seq<char> {
        self.input@
    }

    /// The number of characters consumed so far.
    pub closed spec fn cursor(&self) -> nat {
        self.position as nat
    }

    /// What the next scan yields: the token and the cursor after it, or the
    /// reason why there is no token.
    pub open spec fn upcoming(&self) -> Result<(SpecToken, nat), LexError> {
        scan_token(self.source(), self.cursor())
    }

    /// A scanner at the start of `input`.
    pub fn new(input: String) -> (lexer: Lexer)
        ensures
            lexer.source() == input@,
            lexer.cursor() == 0,
    {
        let text = input.as_str();
        let mut chars: Vec<char> = Vec::new();
        for c in it: text.chars()
            invariant
                it.seq() == text@,
                chars@ == it.seq().take(it.index() as int),
        {
            chars.push(c);
        }
        Lexer { input: chars, position: 0 }
    }

    /// The character under the cursor, if the source is not exhausted.
    fn current_char(&self) -> (c: Option<char>)
        ensures
            self.cursor() <= self.source().len(),
            c == if self.cursor() < self.source().len() {
                Some(self.source()[self.cursor() as int])
            } else {
                None
            },
    {
        proof {
            use_type_invariant(self);
        }
        if self.position < self.input.len() {
            Some(self.input[self.position])
        } else {
            None
        }
    }

    /// Moves the cursor past one character; at the end of the source it stays.
    fn advance(&mut self)
        ensures
            final(self).source() == old(self).source(),
            final(self).cursor() == if old(self).cursor() < old(self).source().len() {
                old(self).cursor() + 1
            } else {
                old(self).cursor()
            },
    {
        proof {
            use_type_invariant(&*self);
        }
        if self.position < self.input.len() {
            self.position = self.position + 1;
        }
    }

    /// Scans the next token.
    ///
    /// Blanks are skipped. At the end of the source the end-of-input marker
    /// is returned, on this call and on every later one. Where the source
    /// holds no token (a character that begins none, a string literal left
    /// open, an integer literal too large for 64 bits) the error says which,
    /// and the scanner stays where it was.
    pub fn try_next_token(&mut self) -> (result: Result<Token, LexError>)
        ensures
            final(self).source() == old(self).source(),
            final(self).cursor() <= final(self).source().len(),
            match old(self).upcoming() {
                Ok((token, next)) => result matches Ok(t) && t@ == token && final(self).cursor()
                    == next,
                Err(e) => result == Err::<Token, LexError>(e) && final(self).cursor() == old(self).cursor(),
            },
    {
        proof {
            use_type_invariant(&*self);
        }
        let origin = self.position;
        loop
            invariant
                self.input@ == old(self).input@,
                origin == old(self).position,
                origin <= self.position <= self.input.len(),
                forall|i: int| origin <= i < self.position ==> is_blank(#[trigger] self.input@[i]),
            decreases self.input.len() - self.position,
        {
            let ghost src = self.input@;
            let ghost start = self.position as nat;
            match self.current_char() {
                None => {
                    proof {
                        lemma_run_end_is(src, origin as nat, CharClass::Blank, start);
                    }
                    return Ok(Token::EOF);
                },
                Some(ch) => {
                    if ch == ' ' || ch == '\t' || ch == '\n' || ch == '\r' {
                        self.advance();
                    } else {
                        proof {
                            lemma_run_end_is(src, origin as nat, CharClass::Blank, start);
                        }
                        let scanned = match ch {
                            '+' => {
                                self.advance();
                                Ok(Token::Plus)
                            },
                            '-' => {
                                self.advance();
                                Ok(Token::Minus)
                            },
                            '*' => {
                                self.advance();
                                Ok(Token::Star)
                            },
                            '/' => {
                                self.advance();
                                Ok(Token::Slash)
                            },
                            '=' => {
                                self.advance();
                                Ok(Token::Equal)
                            },
                            '>' => {
                                self.advance();
                                Ok(Token::GreaterThan)
                            },
                            '<' => {
                                self.advance();
                                Ok(Token::LessThan)
                            },
                            '!' => {
                                self.advance();
                                Ok(Token::NotEqual)
                            },
                            '(' => {
                                self.advance();
                                Ok(Token::LParen)
                            },
                            ')' => {
                                self.advance();
                                Ok(Token::RParen)
                            },
                            '{' => {
                                self.advance();
                                Ok(Token::LBrace)
                            },
                            '}' => {
                                self.advance();
                                Ok(Token::RBrace)
                            },
                            ',' => {
                                self.advance();
                                Ok(Token::Comma)
                            },
                            ';' => {
                                self.advance();
                                Ok(Token::Semicolon)
                            },
                            '"' => self.string_literal(),
                            _ => {
                                if ch >= '0' && ch <= '9' {
                                    self.integer_literal()
                                } else if (ch >= 'a' && ch <= 'z') || (ch >= 'A' && ch <= 'Z') || ch
                                    == '_' {
                                    Ok(self.identifier())
                                } else {
                                    Err(LexError::UnexpectedChar(ch))
                                }
                            },
                        };
                        if scanned.is_err() {
                            self.position = origin;
                        }
                        proof {
                            use_type_invariant(&*self);
                        }
                        return scanned;
                    }
                },
            }
        }
    }

    /// Scans the next token of a source that holds one.
    ///
    /// The source must hold a token or end at the cursor, blanks skipped:
    /// `try_next_token` is the form that reports where it does not.
    pub fn get_next_token(&mut self) -> (token: Token)
        requires
            old(self).upcoming() is Ok,
        ensures
            final(self).source() == old(self).source(),
            final(self).cursor() <= final(self).source().len(),
            old(self).upcoming() == Ok::<(SpecToken, nat), LexError>(
                (token@, final(self).cursor()),
            ),
    {
        match self.try_next_token() {
            Ok(token) => token,
            Err(_) => Token::EOF,
        }
    }

    /// Scans a word, the cursor being at its first character.
    fn identifier(&mut self) -> (token: Token)
        requires
            old(self).cursor() < old(self).source().len(),
            starts_word(old(self).source()[old(self).cursor() as int]),
        ensures
            final(self).source() == old(self).source(),
            final(self).cursor() == run_end(
                old(self).source(),
                old(self).cursor() + 1,
                CharClass::Word,
            ),
            token@ == word_token(
                old(self).source().subrange(old(self).cursor() as int, final(self).cursor() as int),
            ),
    {
        proof {
            use_type_invariant(&*self);
        }
        let start = self.position;
        let mut result = String::new();
        result.push(self.input[start]);
        self.position = start + 1;
        loop
            invariant
                self.input@ == old(self).input@,
                start == old(self).position,
                start < self.position <= self.input.len(),
                result@ == self.input@.subrange(start as int, self.position as int),
                forall|i: int|
                    start < i < self.position ==> continues_word(#[trigger] self.input@[i]),
            ensures
                self.input@ == old(self).input@,
                start < self.position <= self.input.len(),
                result@ == self.input@.subrange(start as int, self.position as int),
                self.position == run_end(self.input@, (start + 1) as nat, CharClass::Word),
            decreases self.input.len() - self.position,
        {
            proof {
                if self.position == self.input.len() || !continues_word(
                    self.input@[self.position as int],
                ) {
                    lemma_run_end_is(
                        self.input@,
                        (start + 1) as nat,
                        CharClass::Word,
                        self.position as nat,
                    );
                }
            }
            match self.current_char() {
                Some(ch) => {
                    if ch.is_alphanumeric() || ch == '_' {
                        result.push(ch);
                        assert(self.input@.subrange(start as int, self.position + 1)
                            == self.input@.subrange(start as int, self.position as int).push(ch));
                        self.advance();
                    } else {
                        break ;
                    }
                },
                None => {
                    break ;
                },
            }
        }
        let word = result.as_str();
        if same_text(word, "let") {
            Token::Let
        } else if same_text(word, "fn") {
            Token::Fn
        } else if same_text(word, "if") {
            Token::If
        } else if same_text(word, "else") {
            Token::Else
        } else if same_text(word, "while") {
            Token::While
        } else if same_text(word, "return") {
            Token::Return
        } else {
            Token::Identifier(result)
        }
    }

    /// Scans an integer literal, the cursor being at its first digit.
    fn integer_literal(&mut self) -> (result: Result<Token, LexError>)
        requires
            old(self).cursor() < old(self).source().len(),
            is_digit(old(self).source()[old(self).cursor() as int]),
        ensures
            final(self).source() == old(self).source(),
            ({
                let end = run_end(old(self).source(), old(self).cursor(), CharClass::Digit);
                let value = decimal_value(
                    old(self).source().subrange(old(self).cursor() as int, end as int),
                );
                if value <= i64::MAX {
                    result matches Ok(t) && t@ == SpecToken::Integer(value as i64) && final(self).cursor() == end
                } else {
                    result == Err::<Token, LexError>(LexError::IntegerOverflow)
                }
            }),
    {
        proof {
            use_type_invariant(&*self);
        }
        let start = self.position;
        let mut value: i64 = 0;
        let mut overflow = false;
        loop
            invariant
                self.input@ == old(self).input@,
                start == old(self).position,
                start <= self.position <= self.input.len(),
                forall|i: int| start <= i < self.position ==> is_digit(#[trigger] self.input@[i]),
                0 <= value,
                !overflow ==> value == decimal_value(
                    self.input@.subrange(start as int, self.position as int),
                ),
                overflow ==> decimal_value(
                    self.input@.subrange(start as int, self.position as int),
                ) > i64::MAX,
            ensures
                self.input@ == old(self).input@,
                start <= self.position <= self.input.len(),
                self.position == run_end(self.input@, start as nat, CharClass::Digit),
                0 <= value,
                !overflow ==> value == decimal_value(
                    self.input@.subrange(start as int, self.position as int),
                ),
                overflow ==> decimal_value(
                    self.input@.subrange(start as int, self.position as int),
                ) > i64::MAX,
            decreases self.input.len() - self.position,
        {
            proof {
                if self.position == self.input.len() || !is_digit(self.input@[self.position as int]) {
                    lemma_run_end_is(
                        self.input@,
                        start as nat,
                        CharClass::Digit,
                        self.position as nat,
                    );
                }
            }
            match self.current_char() {
                Some(ch) => {
                    if ch >= '0' && ch <= '9' {
                        let digit: i64 = (ch as u8 - 48) as i64;
                        proof {
                            let before = self.input@.subrange(start as int, self.position as int);
                            let after = self.input@.subrange(start as int, self.position + 1);
                            assert(after.drop_last() == before);
                            assert(decimal_value(after) == decimal_value(before) * 10 + digit);
                        }
                        if overflow || value > (i64::MAX - digit) / 10 {
                            overflow = true;
                        } else {
                            value = value * 10 + digit;
                        }
                        self.advance();
                    } else {
                        break ;
                    }
                },
                None => {
                    break ;
                },
            }
        }
        if overflow {
            Err(LexError::IntegerOverflow)
        } else {
            Ok(Token::Integer(value))
        }
    }

    /// Scans a string literal, the cursor being at its opening quote.
    fn string_literal(&mut self) -> (result: Result<Token, LexError>)
        requires
            old(self).cursor() < old(self).source().len(),
            old(self).source()[old(self).cursor() as int] == '"',
        ensures
            final(self).source() == old(self).source(),
            ({
                let open = old(self).cursor();
                let close = run_end(old(self).source(), open + 1, CharClass::Quoted);
                if close < old(self).source().len() {
                    result matches Ok(t) && t@ == SpecToken::StringLiteral(
                        old(self).source().subrange((open + 1) as int, close as int),
                    ) && final(self).cursor() == close + 1
                } else {
                    result == Err::<Token, LexError>(LexError::UnterminatedString)
                }
            }),
    {
        proof {
            use_type_invariant(&*self);
        }
        let open = self.position;
        let mut result = String::new();
        self.advance();
        loop
            invariant
                self.input@ == old(self).input@,
                open == old(self).position,
                open < self.position <= self.input.len(),
                result@ == self.input@.subrange(open + 1, self.position as int),
                forall|i: int| open < i < self.position ==> #[trigger] self.input@[i] != '"',
            decreases self.input.len() - self.position,
        {
            proof {
                if self.position == self.input.len() || self.input@[self.position as int] == '"' {
                    lemma_run_end_is(
                        self.input@,
                        (open + 1) as nat,
                        CharClass::Quoted,
                        self.position as nat,
                    );
                }
            }
            match self.current_char() {
                Some(ch) => {
                    if ch == '"' {
                        self.advance();
                        return Ok(Token::StringLiteral(result));
                    } else {
                        result.push(ch);
                        assert(self.input@.subrange(open + 1, self.position + 1)
                            == self.input@.subrange(open + 1, self.position as int).push(ch));
                        self.advance();
                    }
                },
                None => {
                    return Err(LexError::UnterminatedString);
                },
            }
        }
    }
}

/// Whether two texts hold the same characters.
fn same_text(left: &str, right: &str) -> (same: bool)
    ensures
        same == (left@ == right@),
{
    let length = left.unicode_len();
    if length != right.unicode_len() {
        return false;
    }
    let mut i: usize = 0;
    while i < length
        invariant
            length == left@.len(),
            length == right@.len(),
            i <= length,
            forall|j: int| 0 <= j < i ==> left@[j] == right@[j],
        decreases length - i,
    {
        if left.get_char(i) != right.get_char(i) {
            return false;
        }
        i = i + 1;
    }
    assert(left@ =~= right@);
    true
}

} // verus!

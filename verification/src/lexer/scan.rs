use crate::lexer::lexer::{LexError, SpecToken};
use vstd::prelude::*;

verus! {

/// Whether `c` is alphanumeric in the sense of the Unicode character
/// database, as `char::is_alphanumeric` reports it.
pub uninterp spec fn alphanumeric(c: char) -> bool;

/// The ASCII letters and digits.
pub open spec fn is_ascii_alphanumeric(c: char) -> bool {
    'a' <= c <= 'z' || 'A' <= c <= 'Z' || '0' <= c <= '9'
}

/// `char::is_alphanumeric` is a pure function of the character; its result
/// is the one the name `alphanumeric` stands for. Among the ASCII
/// characters it holds of the letters and the digits and of nothing else.
pub assume_specification[ char::is_alphanumeric ](c: char) -> (b: bool)
    ensures
        b == alphanumeric(c),
        c <= '\u{7f}' ==> b == is_ascii_alphanumeric(c),
;

/// The four kinds of character run that the scanner consumes greedily.
pub enum CharClass {
    /// Space, tab, line feed, carriage return.
    Blank,
    /// The ASCII digits.
    Digit,
    /// Letters, digits and the underscore.
    Word,
    /// Everything except the double quote.
    Quoted,
}

/// The characters that separate tokens: space, tab, line feed and carriage
/// return.
pub open spec fn is_blank(c: char) -> bool {
    c == ' ' || c == '\t' || c == '\n' || c == '\r'
}

/// The ASCII digits.
pub open spec fn is_digit(c: char) -> bool {
    '0' <= c <= '9'
}

/// An identifier or keyword begins with an ASCII letter or an underscore.
pub open spec fn starts_word(c: char) -> bool {
    'a' <= c <= 'z' || 'A' <= c <= 'Z' || c == '_'
}

/// After its first character an identifier or keyword goes on with
/// letters, digits and underscores. Among the ASCII characters the letters
/// and digits are `a` to `z`, `A` to `Z` and `0` to `9`; beyond ASCII they
/// are the characters that Unicode counts as alphanumeric.
pub open spec fn continues_word(c: char) -> bool {
    c == '_' || if c <= '\u{7f}' {
        is_ascii_alphanumeric(c)
    } else {
        alphanumeric(c)
    }
}

impl CharClass {
    /// Whether `c` belongs to the class.
    pub open spec fn holds(self, c: char) -> bool {
        match self {
            CharClass::Blank => is_blank(c),
            CharClass::Digit => is_digit(c),
            CharClass::Word => continues_word(c),
            CharClass::Quoted => c != '"',
        }
    }
}

/// The end of the longest run of `class` characters that starts at `from`:
/// the first index at or after `from` whose character is outside the class,
/// or the length of `src` if there is none.
pub open spec fn run_end(src: Seq<char>, from: nat, class: CharClass) -> nat
    decreases src.len() - from,
{
    if from < src.len() && class.holds(src[from as int]) {
        run_end(src, from + 1, class)
    } else {
        from
    }
}

/// The number that a sequence of ASCII digits denotes in base ten.
pub open spec fn decimal_value(digits: Seq<char>) -> nat
    decreases digits.len(),
{
    if digits.len() == 0 {
        0
    } else {
        (decimal_value(digits.drop_last()) * 10 + (digits.last() as int - '0' as int)) as nat
    }
}

/// The token that a single operator or delimiter character stands for.
///
/// Every such character is a token by itself: `!` alone is the not-equal
/// operator and `=` alone is equality, whatever follows.
pub open spec fn symbol_token(c: char) -> Option<SpecToken> {
    if c == '+' {
        Some(SpecToken::Plus)
    } else if c == '-' {
        Some(SpecToken::Minus)
    } else if c == '*' {
        Some(SpecToken::Star)
    } else if c == '/' {
        Some(SpecToken::Slash)
    } else if c == '=' {
        Some(SpecToken::Equal)
    } else if c == '>' {
        Some(SpecToken::GreaterThan)
    } else if c == '<' {
        Some(SpecToken::LessThan)
    } else if c == '!' {
        Some(SpecToken::NotEqual)
    } else if c == '(' {
        Some(SpecToken::LParen)
    } else if c == ')' {
        Some(SpecToken::RParen)
    } else if c == '{' {
        Some(SpecToken::LBrace)
    } else if c == '}' {
        Some(SpecToken::RBrace)
    } else if c == ',' {
        Some(SpecToken::Comma)
    } else if c == ';' {
        Some(SpecToken::Semicolon)
    } else {
        None
    }
}

/// The token for a word: one of the six keywords if the text is exactly
/// that keyword, an identifier carrying the text otherwise.
pub open spec fn word_token(text: Seq<char>) -> SpecToken {
    if text == "let"@ {
        SpecToken::Let
    } else if text == "fn"@ {
        SpecToken::Fn
    } else if text == "if"@ {
        SpecToken::If
    } else if text == "else"@ {
        SpecToken::Else
    } else if text == "while"@ {
        SpecToken::While
    } else if text == "return"@ {
        SpecToken::Return
    } else {
        SpecToken::Identifier(text)
    }
}

/// The token that begins at or after `pos` in `src`, blanks skipped, and the
/// position just past it; or the reason why there is none.
pub open spec fn scan_token(src: Seq<char>, pos: nat) -> Result<(SpecToken, nat), LexError> {
    let start = run_end(src, pos, CharClass::Blank);
    if start >= src.len() {
        Ok((SpecToken::EOF, start))
    } else {
        let c = src[start as int];
        if symbol_token(c) is Some {
            Ok((symbol_token(c)->Some_0, start + 1))
        } else if c == '"' {
            let close = run_end(src, start + 1, CharClass::Quoted);
            if close < src.len() {
                Ok(
                    (
                        SpecToken::StringLiteral(src.subrange((start + 1) as int, close as int)),
                        close + 1,
                    ),
                )
            } else {
                Err(LexError::UnterminatedString)
            }
        } else if is_digit(c) {
            let end = run_end(src, start, CharClass::Digit);
            let value = decimal_value(src.subrange(start as int, end as int));
            if value <= i64::MAX {
                Ok((SpecToken::Integer(value as i64), end))
            } else {
                Err(LexError::IntegerOverflow)
            }
        } else if starts_word(c) {
            let end = run_end(src, start + 1, CharClass::Word);
            Ok((word_token(src.subrange(start as int, end as int)), end))
        } else {
            Err(LexError::UnexpectedChar(c))
        }
    }
}

/// A run ends within the source, at or after the place where it starts.
pub proof fn lemma_run_end_bounds(src: Seq<char>, from: nat, class: CharClass)
    requires
        from <= src.len(),
    ensures
        from <= run_end(src, from, class) <= src.len(),
    decreases src.len() - from,
{
    if from < src.len() && class.holds(src[from as int]) {
        lemma_run_end_bounds(src, from + 1, class);
    }
}

/// `run_end` is the one position with these three properties: it does not
/// pass the end of the source, every character before it is in the class,
/// and the character at it, if any, is not.
pub proof fn lemma_run_end_is(src: Seq<char>, from: nat, class: CharClass, end: nat)
    requires
        from <= end <= src.len(),
        forall|i: int| from <= i < end ==> class.holds(#[trigger] src[i]),
        end < src.len() ==> !class.holds(src[end as int]),
    ensures
        run_end(src, from, class) == end,
    decreases end - from,
{
    if from < end {
        lemma_run_end_is(src, from + 1, class, end);
    }
}

/// A source that holds nothing but blanks from `pos` on scans to the
/// end-of-input marker, at the end of the source.
pub proof fn lemma_blank_source_is_eof(src: Seq<char>, pos: nat)
    requires
        pos <= src.len(),
        forall|i: int| pos <= i < src.len() ==> is_blank(#[trigger] src[i]),
    ensures
        scan_token(src, pos) == Ok::<(SpecToken, nat), LexError>((SpecToken::EOF, src.len())),
{
    lemma_run_end_is(src, pos, CharClass::Blank, src.len());
}

/// Once the end-of-input marker has been produced it is produced again, and
/// the position stays where it is: at the end of the source.
pub proof fn lemma_eof_is_final(src: Seq<char>, pos: nat)
    requires
        pos <= src.len(),
        scan_token(src, pos) matches Ok((token, _)) && token == SpecToken::EOF,
    ensures
        scan_token(src, pos) == Ok::<(SpecToken, nat), LexError>((SpecToken::EOF, src.len())),
        scan_token(src, src.len()) == scan_token(src, pos),
{
    lemma_run_end_bounds(src, pos, CharClass::Blank);
    let start = run_end(src, pos, CharClass::Blank);
    if start < src.len() {
        let c = src[start as int];
        if symbol_token(c) is Some {
        } else if c == '"' {
        } else if is_digit(c) {
        } else if starts_word(c) {
            lemma_run_end_bounds(src, start + 1, CharClass::Word);
            lemma_word_token_is_not_eof(src.subrange(start as int, run_end(src, start + 1, CharClass::Word) as int));
        }
    }
}

/// A word is never the end-of-input marker.
pub proof fn lemma_word_token_is_not_eof(text: Seq<char>)
    ensures
        word_token(text) != SpecToken::EOF,
{
}

/// Every token but the end-of-input marker spans at least one character and
/// ends within the source; the marker is produced at the end of the source.
pub proof fn lemma_scan_advances(src: Seq<char>, pos: nat)
    requires
        pos <= src.len(),
    ensures
        match scan_token(src, pos) {
            Ok((token, next)) => pos <= next <= src.len() && (token == SpecToken::EOF
                || pos < next),
            Err(_) => true,
        },
{
    lemma_run_end_bounds(src, pos, CharClass::Blank);
    let start = run_end(src, pos, CharClass::Blank);
    if start < src.len() {
        lemma_run_end_bounds(src, start + 1, CharClass::Quoted);
        lemma_run_end_bounds(src, start + 1, CharClass::Digit);
        lemma_run_end_bounds(src, start + 1, CharClass::Word);
    }
}

} // verus!

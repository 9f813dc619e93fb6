use vstd::prelude::*;
use vstd::string::StringExecFns;

verus! {

/// `String::push` appends one character to the end of the string and leaves
/// the characters already there untouched.
pub assume_specification[ std::string::String::push ](s: &mut std::string::String, ch: char)
    ensures
        final(s)@ == old(s)@.push(ch),
;

/// A text as the standard debug formatting of strings shows it: between
/// double quotes, with quotes, backslashes and unprintable characters
/// escaped.
pub uninterp spec fn quoted(text: Seq<char>) -> Seq<char>;

/// Calls the standard library's `Debug` formatting of `str` (`{:?}`). What
/// it writes depends on the characters of the string alone; the result is
/// the one the name `quoted` stands for, and nothing more is claimed of it.
#[verifier::external_body]
fn quote(text: &str) -> (shown: String)
    ensures
        shown@ == quoted(text@),
{
    format!("{:?}", text)
}

/// Appends `text`, quoted, to `out`.
pub fn push_quoted(out: &mut String, text: &str)
    ensures
        final(out)@ == old(out)@ + quoted(text@),
{
    let shown = quote(text);
    out.append(shown.as_str());
}

/// The character that shows the digit `d`.
pub open spec fn digit_char(d: nat) -> char {
    ('0' as nat + d) as char
}

/// A natural number in base ten, without leading zeros.
pub open spec fn natural_text(n: nat) -> Seq<char>
    decreases n,
{
    if n < 10 {
        seq![digit_char(n)]
    } else {
        natural_text(n / 10).push(digit_char(n % 10))
    }
}

/// An integer in base ten, with a minus sign where it is negative.
pub open spec fn decimal_text(n: int) -> Seq<char> {
    if n < 0 {
        seq!['-'] + natural_text((-n) as nat)
    } else {
        natural_text(n as nat)
    }
}

/// Appends `n` in base ten to `out`.
fn push_natural(out: &mut String, n: u64)
    ensures
        final(out)@ == old(out)@ + natural_text(n as nat),
    decreases n,
{
    if n >= 10 {
        push_natural(out, n / 10);
    }
    let digit: u8 = (n % 10) as u8;
    out.push((digit + 48) as char);
    assert(out@ =~= old(out)@ + natural_text(n as nat));
}

/// Appends `n` in base ten to `out`, with a minus sign where it is negative.
pub fn push_decimal(out: &mut String, n: i64)
    ensures
        final(out)@ == old(out)@ + decimal_text(n as int),
{
    if n < 0 {
        out.push('-');
        let magnitude: u64 = if n == i64::MIN {
            9223372036854775808u64
        } else {
            (-n) as u64
        };
        push_natural(out, magnitude);
        assert(out@ =~= old(out)@ + decimal_text(n as int));
    } else {
        push_natural(out, n as u64);
    }
}

} // verus!

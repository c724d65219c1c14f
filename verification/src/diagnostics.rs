//! The messages of parse errors.
use vstd::prelude::*;
use crate::grammar::ParseErrorView;
use crate::lexer::{chars_to_string, is_ident_char, Token, TokenView};
use crate::parser::ParseError;

verus! {

// ---------------------------------------------------------------------------
// Decimal numerals
// ---------------------------------------------------------------------------

pub open spec fn digit_char(d: nat) -> char {
    if d == 0 {
        '0'
    } else if d == 1 {
        '1'
    } else if d == 2 {
        '2'
    } else if d == 3 {
        '3'
    } else if d == 4 {
        '4'
    } else if d == 5 {
        '5'
    } else if d == 6 {
        '6'
    } else if d == 7 {
        '7'
    } else if d == 8 {
        '8'
    } else {
        '9'
    }
}

/// The decimal digits of `n`, most significant first.
pub open spec fn digits(n: nat) -> Seq<char>
    decreases n,
{
    if n < 10 {
        seq![digit_char(n)]
    } else {
        digits(n / 10).push(digit_char(n % 10))
    }
}

/// An integer in decimal, with a leading `-` when negative.
pub open spec fn decimal(v: int) -> Seq<char> {
    if v < 0 {
        seq!['-'] + digits((-v) as nat)
    } else {
        digits(v as nat)
    }
}

fn digit(d: u32) -> (c: char)
    requires
        d < 10,
    ensures
        c == digit_char(d as nat),
{
    match d {
        0 => '0',
        1 => '1',
        2 => '2',
        3 => '3',
        4 => '4',
        5 => '5',
        6 => '6',
        7 => '7',
        8 => '8',
        _ => '9',
    }
}

fn push_digits(n: u32, out: &mut Vec<char>)
    ensures
        final(out)@ == old(out)@ + digits(n as nat),
    decreases n,
{
    if n >= 10 {
        push_digits(n / 10, out);
    }
    out.push(digit(n % 10));
    proof {
        if n >= 10 {
            assert(digits(n as nat) == digits((n / 10) as nat).push(digit_char((n % 10) as nat)));
        }
        assert(out@ =~= old(out)@ + digits(n as nat));
    }
}

/// An `i32` in decimal.
pub fn decimal_text(v: i32) -> (r: String)
    ensures
        r@ == decimal(v as int),
{
    let mut chars: Vec<char> = Vec::new();
    let magnitude: u32 = if v < 0 {
        chars.push('-');
        (0i64 - v as i64) as u32
    } else {
        v as u32
    };
    push_digits(magnitude, &mut chars);
    proof {
        assert(chars@ =~= decimal(v as int));
    }
    chars_to_string(&chars)
}

// ---------------------------------------------------------------------------
// Tokens as `Debug` shows them
// ---------------------------------------------------------------------------

/// What `Debug` shows of a string: the text in double quotes, with quotes,
/// backslashes and characters that do not print escaped.
pub uninterp spec fn quoted_debug(s: Seq<char>) -> Seq<char>;

/// `<String as Debug>::fmt`, by way of `format!`. Letters, digits and `_`
/// are not escaped, so a string of only those shows as itself in quotes.
#[verifier::external_body]
fn debug_quoted(s: &String) -> (r: String)
    ensures
        r@ == quoted_debug(s@),
        (forall|i: int| 0 <= i < s@.len() ==> is_ident_char(#[trigger] s@[i])) ==> r@ == seq![
            '"',
        ] + s@ + seq!['"'],
{
    format!("{s:?}")
}

/// A token as its derived `Debug` shows it.
pub open spec fn token_debug(t: TokenView) -> Seq<char> {
    match t {
        TokenView::Int => "Int"@,
        TokenView::Void => "Void"@,
        TokenView::Return => "Return"@,
        TokenView::If => "If"@,
        TokenView::Else => "Else"@,
        TokenView::While => "While"@,
        TokenView::For => "For"@,
        TokenView::Break => "Break"@,
        TokenView::Continue => "Continue"@,
        TokenView::Plus => "Plus"@,
        TokenView::Minus => "Minus"@,
        TokenView::Star => "Star"@,
        TokenView::Slash => "Slash"@,
        TokenView::Percent => "Percent"@,
        TokenView::LeftParen => "LeftParen"@,
        TokenView::RightParen => "RightParen"@,
        TokenView::LeftBrace => "LeftBrace"@,
        TokenView::RightBrace => "RightBrace"@,
        TokenView::Semicolon => "Semicolon"@,
        TokenView::Comma => "Comma"@,
        TokenView::Question => "Question"@,
        TokenView::Colon => "Colon"@,
        TokenView::Equals => "Equals"@,
        TokenView::EqualEqual => "EqualEqual"@,
        TokenView::NotEqual => "NotEqual"@,
        TokenView::LessThan => "LessThan"@,
        TokenView::LessEqual => "LessEqual"@,
        TokenView::GreaterThan => "GreaterThan"@,
        TokenView::GreaterEqual => "GreaterEqual"@,
        TokenView::AndAnd => "AndAnd"@,
        TokenView::OrOr => "OrOr"@,
        TokenView::Exclamation => "Exclamation"@,
        TokenView::Ampersand => "Ampersand"@,
        TokenView::PlusPlus => "PlusPlus"@,
        TokenView::MinusMinus => "MinusMinus"@,
        TokenView::PlusEqual => "PlusEqual"@,
        TokenView::MinusEqual => "MinusEqual"@,
        TokenView::StarEqual => "StarEqual"@,
        TokenView::SlashEqual => "SlashEqual"@,
        TokenView::PercentEqual => "PercentEqual"@,
        TokenView::Identifier(name) => "Identifier("@ + quoted_debug(name) + ")"@,
        TokenView::Integer(v) => "Integer("@ + decimal(v as int) + ")"@,
    }
}

/// An optional token as `Debug` shows it.
pub open spec fn found_debug(t: Option<TokenView>) -> Seq<char> {
    match t {
        Some(t) => "Some("@ + token_debug(t) + ")"@,
        None => "None"@,
    }
}

/// The message of a parse error.
pub open spec fn parse_error_message(e: ParseErrorView) -> Seq<char> {
    match e {
        ParseErrorView::UnexpectedToken { expected, found } => "expected "@ + expected@ + ", found "@
            + found_debug(found),
        ParseErrorView::TrailingTokens { found } => "unexpected trailing token after program: "@
            + token_debug(found),
        ParseErrorView::InvalidIncrementTarget => "`++`/`--` target must be a variable"@,
    }
}

/// Whether a name is made only of letters, digits and `_`, as every
/// identifier that the lexer produces is.
pub open spec fn plain_name(name: Seq<char>) -> bool {
    forall|i: int| 0 <= i < name.len() ==> is_ident_char(#[trigger] name[i])
}

/// A token as `Debug` shows it, where an identifier is a plain name.
pub open spec fn plain_token_debug(t: TokenView) -> Seq<char> {
    match t {
        TokenView::Identifier(name) => "Identifier(\""@ + name + "\")"@,
        _ => token_debug(t),
    }
}

/// A token is shown plainly when it is no identifier or a plainly named one.
pub open spec fn plain_token(t: TokenView) -> bool {
    t matches TokenView::Identifier(name) ==> plain_name(name)
}

fn token_text(t: &Token) -> (r: String)
    ensures
        r@ == token_debug(t@),
        plain_token(t@) ==> r@ == plain_token_debug(t@),
{
    match t {
        Token::Int => String::from_str("Int"),
        Token::Void => String::from_str("Void"),
        Token::Return => String::from_str("Return"),
        Token::If => String::from_str("If"),
        Token::Else => String::from_str("Else"),
        Token::While => String::from_str("While"),
        Token::For => String::from_str("For"),
        Token::Break => String::from_str("Break"),
        Token::Continue => String::from_str("Continue"),
        Token::Plus => String::from_str("Plus"),
        Token::Minus => String::from_str("Minus"),
        Token::Star => String::from_str("Star"),
        Token::Slash => String::from_str("Slash"),
        Token::Percent => String::from_str("Percent"),
        Token::LeftParen => String::from_str("LeftParen"),
        Token::RightParen => String::from_str("RightParen"),
        Token::LeftBrace => String::from_str("LeftBrace"),
        Token::RightBrace => String::from_str("RightBrace"),
        Token::Semicolon => String::from_str("Semicolon"),
        Token::Comma => String::from_str("Comma"),
        Token::Question => String::from_str("Question"),
        Token::Colon => String::from_str("Colon"),
        Token::Equals => String::from_str("Equals"),
        Token::EqualEqual => String::from_str("EqualEqual"),
        Token::NotEqual => String::from_str("NotEqual"),
        Token::LessThan => String::from_str("LessThan"),
        Token::LessEqual => String::from_str("LessEqual"),
        Token::GreaterThan => String::from_str("GreaterThan"),
        Token::GreaterEqual => String::from_str("GreaterEqual"),
        Token::AndAnd => String::from_str("AndAnd"),
        Token::OrOr => String::from_str("OrOr"),
        Token::Exclamation => String::from_str("Exclamation"),
        Token::Ampersand => String::from_str("Ampersand"),
        Token::PlusPlus => String::from_str("PlusPlus"),
        Token::MinusMinus => String::from_str("MinusMinus"),
        Token::PlusEqual => String::from_str("PlusEqual"),
        Token::MinusEqual => String::from_str("MinusEqual"),
        Token::StarEqual => String::from_str("StarEqual"),
        Token::SlashEqual => String::from_str("SlashEqual"),
        Token::PercentEqual => String::from_str("PercentEqual"),
        Token::Identifier(name) => {
            let mut m = String::from_str("Identifier(");
            let quoted = debug_quoted(name);
            m.append(quoted.as_str());
            m.append(")");
            proof {
                reveal_strlit("Identifier(");
                reveal_strlit(")");
                reveal_strlit("Identifier(\"");
                reveal_strlit("\")");
                if plain_name(name@) {
                    assert(m@ =~= plain_token_debug(t@));
                }
            }
            m
        },
        Token::Integer(v) => {
            let mut m = String::from_str("Integer(");
            let text = decimal_text(*v);
            m.append(text.as_str());
            m.append(")");
            m
        },
    }
}

impl ParseError {
    /// The error's message, as the compiler reports it.
    pub fn message(&self) -> (r: String)
        ensures
            r@ == parse_error_message(self@),
            match self@ {
                ParseErrorView::UnexpectedToken { expected, found: Some(t) } => plain_token(t)
                    ==> r@ == "expected "@ + expected@ + ", found Some("@ + plain_token_debug(t)
                    + ")"@,
                ParseErrorView::TrailingTokens { found } => plain_token(found) ==> r@
                    == "unexpected trailing token after program: "@ + plain_token_debug(found),
                _ => true,
            },
    {
        match self {
            ParseError::UnexpectedToken { expected, found } => {
                let mut m = String::from_str("expected ");
                m.append(expected);
                m.append(", found ");
                match found {
                    Some(t) => {
                        m.append("Some(");
                        let text = token_text(t);
                        m.append(text.as_str());
                        m.append(")");
                        proof {
                            reveal_strlit(", found ");
                            reveal_strlit("Some(");
                            reveal_strlit(", found Some(");
                            if plain_token(t@) {
                                assert(m@ =~= "expected "@ + expected@ + ", found Some("@
                                    + plain_token_debug(t@) + ")"@);
                            }
                        }
                    },
                    None => m.append("None"),
                }
                m
            },
            ParseError::TrailingTokens { found } => {
                let mut m = String::from_str("unexpected trailing token after program: ");
                let text = token_text(found);
                m.append(text.as_str());
                m
            },
            ParseError::InvalidIncrementTarget => String::from_str(
                "`++`/`--` target must be a variable",
            ),
        }
    }
}

} // verus!

use vstd::prelude::*;

verus! {

broadcast use vstd::string::group_string_axioms;

/// A lexical token of the C subset.
#[derive(Debug, PartialEq, Eq)]
pub enum Token {
    Int,
    Void,
    Return,
    If,
    Else,
    While,
    For,
    Break,
    Continue,
    Identifier(String),
    Plus,
    Minus,
    Star,
    Slash,
    Percent,
    LeftParen,
    RightParen,
    LeftBrace,
    RightBrace,
    Semicolon,
    Comma,
    Question,
    Colon,
    Equals,
    EqualEqual,
    NotEqual,
    LessThan,
    LessEqual,
    GreaterThan,
    GreaterEqual,
    AndAnd,
    OrOr,
    Exclamation,
    Ampersand,
    PlusPlus,
    MinusMinus,
    PlusEqual,
    MinusEqual,
    StarEqual,
    SlashEqual,
    PercentEqual,
    Integer(i32),
}

/// The mathematical model of a token: identifiers are character sequences.
pub enum TokenView {
    Int,
    Void,
    Return,
    If,
    Else,
    While,
    For,
    Break,
    Continue,
    Identifier(Seq<char>),
    Plus,
    Minus,
    Star,
    Slash,
    Percent,
    LeftParen,
    RightParen,
    LeftBrace,
    RightBrace,
    Semicolon,
    Comma,
    Question,
    Colon,
    Equals,
    EqualEqual,
    NotEqual,
    LessThan,
    LessEqual,
    GreaterThan,
    GreaterEqual,
    AndAnd,
    OrOr,
    Exclamation,
    Ampersand,
    PlusPlus,
    MinusMinus,
    PlusEqual,
    MinusEqual,
    StarEqual,
    SlashEqual,
    PercentEqual,
    Integer(i32),
}

impl View for Token {
    type V = TokenView;

    open spec fn view(&self) -> TokenView {
        match self {
            Token::Int => TokenView::Int,
            Token::Void => TokenView::Void,
            Token::Return => TokenView::Return,
            Token::If => TokenView::If,
            Token::Else => TokenView::Else,
            Token::While => TokenView::While,
            Token::For => TokenView::For,
            Token::Break => TokenView::Break,
            Token::Continue => TokenView::Continue,
            Token::Identifier(name) => TokenView::Identifier(name@),
            Token::Plus => TokenView::Plus,
            Token::Minus => TokenView::Minus,
            Token::Star => TokenView::Star,
            Token::Slash => TokenView::Slash,
            Token::Percent => TokenView::Percent,
            Token::LeftParen => TokenView::LeftParen,
            Token::RightParen => TokenView::RightParen,
            Token::LeftBrace => TokenView::LeftBrace,
            Token::RightBrace => TokenView::RightBrace,
            Token::Semicolon => TokenView::Semicolon,
            Token::Comma => TokenView::Comma,
            Token::Question => TokenView::Question,
            Token::Colon => TokenView::Colon,
            Token::Equals => TokenView::Equals,
            Token::EqualEqual => TokenView::EqualEqual,
            Token::NotEqual => TokenView::NotEqual,
            Token::LessThan => TokenView::LessThan,
            Token::LessEqual => TokenView::LessEqual,
            Token::GreaterThan => TokenView::GreaterThan,
            Token::GreaterEqual => TokenView::GreaterEqual,
            Token::AndAnd => TokenView::AndAnd,
            Token::OrOr => TokenView::OrOr,
            Token::Exclamation => TokenView::Exclamation,
            Token::Ampersand => TokenView::Ampersand,
            Token::PlusPlus => TokenView::PlusPlus,
            Token::MinusMinus => TokenView::MinusMinus,
            Token::PlusEqual => TokenView::PlusEqual,
            Token::MinusEqual => TokenView::MinusEqual,
            Token::StarEqual => TokenView::StarEqual,
            Token::SlashEqual => TokenView::SlashEqual,
            Token::PercentEqual => TokenView::PercentEqual,
            Token::Integer(v) => TokenView::Integer(*v),
        }
    }
}

impl Clone for Token {
    fn clone(&self) -> (r: Self)
        ensures
            r == *self,
    {
        match self {
            Token::Int => Token::Int,
            Token::Void => Token::Void,
            Token::Return => Token::Return,
            Token::If => Token::If,
            Token::Else => Token::Else,
            Token::While => Token::While,
            Token::For => Token::For,
            Token::Break => Token::Break,
            Token::Continue => Token::Continue,
            Token::Identifier(name) => Token::Identifier(name.clone()),
            Token::Plus => Token::Plus,
            Token::Minus => Token::Minus,
            Token::Star => Token::Star,
            Token::Slash => Token::Slash,
            Token::Percent => Token::Percent,
            Token::LeftParen => Token::LeftParen,
            Token::RightParen => Token::RightParen,
            Token::LeftBrace => Token::LeftBrace,
            Token::RightBrace => Token::RightBrace,
            Token::Semicolon => Token::Semicolon,
            Token::Comma => Token::Comma,
            Token::Question => Token::Question,
            Token::Colon => Token::Colon,
            Token::Equals => Token::Equals,
            Token::EqualEqual => Token::EqualEqual,
            Token::NotEqual => Token::NotEqual,
            Token::LessThan => Token::LessThan,
            Token::LessEqual => Token::LessEqual,
            Token::GreaterThan => Token::GreaterThan,
            Token::GreaterEqual => Token::GreaterEqual,
            Token::AndAnd => Token::AndAnd,
            Token::OrOr => Token::OrOr,
            Token::Exclamation => Token::Exclamation,
            Token::Ampersand => Token::Ampersand,
            Token::PlusPlus => Token::PlusPlus,
            Token::MinusMinus => Token::MinusMinus,
            Token::PlusEqual => Token::PlusEqual,
            Token::MinusEqual => Token::MinusEqual,
            Token::StarEqual => Token::StarEqual,
            Token::SlashEqual => Token::SlashEqual,
            Token::PercentEqual => Token::PercentEqual,
            Token::Integer(v) => Token::Integer(*v),
        }
    }
}

pub open spec fn tokens_view(ts: Seq<Token>) -> Seq<TokenView> {
    ts.map_values(|t: Token| t@)
}

// ---------------------------------------------------------------------------
// Character classes
// ---------------------------------------------------------------------------

/// Unicode `White_Space`, the property that `char::is_whitespace` tests.
pub open spec fn is_space(c: char) -> bool {
    ||| '\u{9}' <= c <= '\u{d}'
    ||| c == ' '
    ||| c == '\u{85}'
    ||| c == '\u{a0}'
    ||| c == '\u{1680}'
    ||| '\u{2000}' <= c <= '\u{200a}'
    ||| c == '\u{2028}'
    ||| c == '\u{2029}'
    ||| c == '\u{202f}'
    ||| c == '\u{205f}'
    ||| c == '\u{3000}'
}

pub open spec fn is_digit(c: char) -> bool {
    '0' <= c <= '9'
}

pub open spec fn is_ident_start(c: char) -> bool {
    ('a' <= c <= 'z') || ('A' <= c <= 'Z') || c == '_'
}

pub open spec fn is_ident_char(c: char) -> bool {
    is_ident_start(c) || is_digit(c)
}

fn char_is_space(c: char) -> (r: bool)
    ensures
        r == is_space(c),
{
    ('\u{9}' <= c && c <= '\u{d}') || c == ' ' || c == '\u{85}' || c == '\u{a0}' || c == '\u{1680}'
        || ('\u{2000}' <= c && c <= '\u{200a}') || c == '\u{2028}' || c == '\u{2029}' || c
        == '\u{202f}' || c == '\u{205f}' || c == '\u{3000}'
}

fn char_is_digit(c: char) -> (r: bool)
    ensures
        r == is_digit(c),
{
    '0' <= c && c <= '9'
}

fn char_is_ident_start(c: char) -> (r: bool)
    ensures
        r == is_ident_start(c),
{
    ('a' <= c && c <= 'z') || ('A' <= c && c <= 'Z') || c == '_'
}

fn char_is_ident_char(c: char) -> (r: bool)
    ensures
        r == is_ident_char(c),
{
    char_is_ident_start(c) || char_is_digit(c)
}

// ---------------------------------------------------------------------------
// The lexical grammar, read from the front of the remaining input
// ---------------------------------------------------------------------------

/// Length of the run of decimal digits at the front of `s`.
pub open spec fn digit_run(s: Seq<char>) -> nat
    decreases s.len(),
{
    if s.len() > 0 && is_digit(s[0]) {
        1 + digit_run(s.drop_first())
    } else {
        0
    }
}

/// Length of the run of identifier characters at the front of `s`.
pub open spec fn ident_run(s: Seq<char>) -> nat
    decreases s.len(),
{
    if s.len() > 0 && is_ident_char(s[0]) {
        1 + ident_run(s.drop_first())
    } else {
        0
    }
}

/// Number of characters before the first newline of `s` (all of `s` if none).
pub open spec fn line_rest(s: Seq<char>) -> nat
    decreases s.len(),
{
    if s.len() > 0 && s[0] != '\n' {
        1 + line_rest(s.drop_first())
    } else {
        0
    }
}

/// Length of the prefix of `s` that ends with the first `*/`, if there is one.
pub open spec fn block_rest(s: Seq<char>) -> Option<nat>
    decreases s.len(),
{
    if s.len() < 2 {
        None
    } else if s[0] == '*' && s[1] == '/' {
        Some(2)
    } else {
        match block_rest(s.drop_first()) {
            Some(n) => Some(n + 1),
            None => None,
        }
    }
}

/// The decimal number written by the digits `d`.
pub open spec fn decimal_value(d: Seq<char>) -> nat
    decreases d.len(),
{
    if d.len() == 0 {
        0
    } else {
        decimal_value(d.drop_last()) * 10 + (d.last() as nat - '0' as nat) as nat
    }
}

/// The token that a word of identifier characters stands for.
pub open spec fn word_token(w: Seq<char>) -> TokenView {
    if w == seq!['i', 'n', 't'] {
        TokenView::Int
    } else if w == seq!['v', 'o', 'i', 'd'] {
        TokenView::Void
    } else if w == seq!['r', 'e', 't', 'u', 'r', 'n'] {
        TokenView::Return
    } else if w == seq!['i', 'f'] {
        TokenView::If
    } else if w == seq!['e', 'l', 's', 'e'] {
        TokenView::Else
    } else if w == seq!['w', 'h', 'i', 'l', 'e'] {
        TokenView::While
    } else if w == seq!['f', 'o', 'r'] {
        TokenView::For
    } else if w == seq!['b', 'r', 'e', 'a', 'k'] {
        TokenView::Break
    } else if w == seq!['c', 'o', 'n', 't', 'i', 'n', 'u', 'e'] {
        TokenView::Continue
    } else {
        TokenView::Identifier(w)
    }
}

pub open spec fn unexpected_character_message(c: char) -> Seq<char> {
    "unexpected character `"@ + seq![c] + "`"@
}

pub open spec fn lone_pipe_message() -> Seq<char> {
    "expected '|' after '|'"@
}

pub open spec fn integer_too_large_message(digits: Seq<char>) -> Seq<char> {
    "invalid integer literal `"@ + digits + "`: number too large to fit in target type"@
}

pub open spec fn unterminated_comment_message() -> Seq<char> {
    "unterminated block comment"@
}

pub open spec fn second_is(s: Seq<char>, c: char) -> bool {
    s.len() > 1 && s[1] == c
}

/// `s` starts with `//`.
pub open spec fn starts_line_comment(s: Seq<char>) -> bool {
    s.len() > 0 && s[0] == '/' && second_is(s, '/')
}

/// `s` starts with `/*`.
pub open spec fn starts_block_comment(s: Seq<char>) -> bool {
    s.len() > 0 && s[0] == '/' && second_is(s, '*')
}

/// One operator: `single` alone, or `double` when `next` follows.
pub open spec fn one_or_two(s: Seq<char>, next: char, double: TokenView, single: TokenView) -> Result<
    (TokenView, nat),
    Seq<char>,
> {
    if second_is(s, next) {
        Ok((double, 2))
    } else {
        Ok((single, 1))
    }
}

/// The token at the front of `s` and the number of characters it spans, for an
/// `s` that starts with neither whitespace nor a comment.
pub open spec fn scan_token(s: Seq<char>) -> Result<(TokenView, nat), Seq<char>>
    recommends
        s.len() > 0,
{
    let c = s[0];
    if c == '+' {
        if second_is(s, '+') {
            Ok((TokenView::PlusPlus, 2))
        } else {
            one_or_two(s, '=', TokenView::PlusEqual, TokenView::Plus)
        }
    } else if c == '-' {
        if second_is(s, '-') {
            Ok((TokenView::MinusMinus, 2))
        } else {
            one_or_two(s, '=', TokenView::MinusEqual, TokenView::Minus)
        }
    } else if c == '*' {
        one_or_two(s, '=', TokenView::StarEqual, TokenView::Star)
    } else if c == '/' {
        one_or_two(s, '=', TokenView::SlashEqual, TokenView::Slash)
    } else if c == '%' {
        one_or_two(s, '=', TokenView::PercentEqual, TokenView::Percent)
    } else if c == '(' {
        Ok((TokenView::LeftParen, 1))
    } else if c == ')' {
        Ok((TokenView::RightParen, 1))
    } else if c == '{' {
        Ok((TokenView::LeftBrace, 1))
    } else if c == '}' {
        Ok((TokenView::RightBrace, 1))
    } else if c == ';' {
        Ok((TokenView::Semicolon, 1))
    } else if c == ',' {
        Ok((TokenView::Comma, 1))
    } else if c == '?' {
        Ok((TokenView::Question, 1))
    } else if c == ':' {
        Ok((TokenView::Colon, 1))
    } else if c == '=' {
        one_or_two(s, '=', TokenView::EqualEqual, TokenView::Equals)
    } else if c == '!' {
        one_or_two(s, '=', TokenView::NotEqual, TokenView::Exclamation)
    } else if c == '<' {
        one_or_two(s, '=', TokenView::LessEqual, TokenView::LessThan)
    } else if c == '>' {
        one_or_two(s, '=', TokenView::GreaterEqual, TokenView::GreaterThan)
    } else if c == '&' {
        one_or_two(s, '&', TokenView::AndAnd, TokenView::Ampersand)
    } else if c == '|' {
        if second_is(s, '|') {
            Ok((TokenView::OrOr, 2))
        } else {
            Err(lone_pipe_message())
        }
    } else if is_digit(c) {
        let n = digit_run(s);
        let digits = s.take(n as int);
        if decimal_value(digits) <= i32::MAX {
            Ok((TokenView::Integer(decimal_value(digits) as i32), n))
        } else {
            Err(integer_too_large_message(digits))
        }
    } else if is_ident_start(c) {
        let n = ident_run(s);
        Ok((word_token(s.take(n as int)), n))
    } else {
        Err(unexpected_character_message(c))
    }
}

pub proof fn lemma_digit_run_bounds(s: Seq<char>)
    ensures
        digit_run(s) <= s.len(),
        s.len() > 0 && is_digit(s[0]) ==> digit_run(s) >= 1,
    decreases s.len(),
{
    if s.len() > 0 && is_digit(s[0]) {
        lemma_digit_run_bounds(s.drop_first());
    }
}

pub proof fn lemma_ident_run_bounds(s: Seq<char>)
    ensures
        ident_run(s) <= s.len(),
        s.len() > 0 && is_ident_char(s[0]) ==> ident_run(s) >= 1,
    decreases s.len(),
{
    if s.len() > 0 && is_ident_char(s[0]) {
        lemma_ident_run_bounds(s.drop_first());
    }
}

pub proof fn lemma_line_rest_bounds(s: Seq<char>)
    ensures
        line_rest(s) <= s.len(),
    decreases s.len(),
{
    if s.len() > 0 && s[0] != '\n' {
        lemma_line_rest_bounds(s.drop_first());
    }
}

pub proof fn lemma_block_rest_bounds(s: Seq<char>)
    ensures
        block_rest(s) matches Some(n) ==> 2 <= n <= s.len(),
    decreases s.len(),
{
    if s.len() >= 2 && !(s[0] == '*' && s[1] == '/') {
        lemma_block_rest_bounds(s.drop_first());
    }
}

pub proof fn lemma_scan_token_bounds(s: Seq<char>)
    requires
        s.len() > 0,
    ensures
        scan_token(s) matches Ok((_, n)) ==> 1 <= n <= s.len(),
{
    lemma_digit_run_bounds(s);
    lemma_ident_run_bounds(s);
}

/// The tokens of `s`, or the message of the first lexical error in it.
pub open spec fn lex(s: Seq<char>) -> Result<Seq<TokenView>, Seq<char>>
    decreases s.len(),
{
    if s.len() == 0 {
        Ok(Seq::empty())
    } else if is_space(s[0]) {
        lex(s.drop_first())
    } else if starts_line_comment(s) {
        proof {
            lemma_line_rest_bounds(s.skip(2));
        }
        lex(s.skip(2 + line_rest(s.skip(2)) as int))
    } else if starts_block_comment(s) {
        proof {
            lemma_block_rest_bounds(s.skip(2));
        }
        match block_rest(s.skip(2)) {
            Some(n) => lex(s.skip(2 + n as int)),
            None => Err(unterminated_comment_message()),
        }
    } else {
        proof {
            lemma_scan_token_bounds(s);
        }
        match scan_token(s) {
            Ok((t, n)) => match lex(s.skip(n as int)) {
                Ok(rest) => Ok(seq![t] + rest),
                Err(e) => Err(e),
            },
            Err(e) => Err(e),
        }
    }
}


// ---------------------------------------------------------------------------
// Executable lexer
// ---------------------------------------------------------------------------

/// `String` from characters (std's `FromIterator<&char> for String`).
#[verifier::external_body]
pub(crate) fn chars_to_string(chars: &Vec<char>) -> (r: String)
    ensures
        r@ == chars@,
{
    chars.iter().collect()
}

pub(crate) fn source_chars(source: &str) -> (r: Vec<char>)
    ensures
        r@ == source@,
{
    let mut out: Vec<char> = Vec::new();
    let mut it = source.chars();
    loop
        invariant
            out@ + vstd::std_specs::iter::IteratorSpec::remaining(&it) == source@,
            vstd::std_specs::iter::IteratorSpec::decrease(&it) is Some,
        decreases vstd::std_specs::iter::IteratorSpec::decrease(&it)->0,
    {
        let ghost before = vstd::std_specs::iter::IteratorSpec::remaining(&it);
        match it.next() {
            Some(c) => {
                out.push(c);
                assert(out@ + vstd::std_specs::iter::IteratorSpec::remaining(&it) =~= source@) by {
                    assert(before =~= seq![c] + vstd::std_specs::iter::IteratorSpec::remaining(&it));
                }
            },
            None => {
                assert(out@ =~= source@);
                return out;
            },
        }
    }
}

proof fn lemma_skip_step(s: Seq<char>, k: int)
    requires
        0 <= k < s.len(),
    ensures
        s.skip(k).len() == s.len() - k,
        s.skip(k)[0] == s[k],
        s.skip(k).drop_first() == s.skip(k + 1),
        k + 1 < s.len() ==> s.skip(k)[1] == s[k + 1],
        second_is(s.skip(k), s[k + 1]) <== k + 1 < s.len(),
{
    assert(s.skip(k).drop_first() =~= s.skip(k + 1));
}

fn next_is(chars: &Vec<char>, i: usize, c: char) -> (r: bool)
    requires
        i < chars.len(),
    ensures
        r == second_is(chars@.skip(i as int), c),
        r ==> i + 1 < chars.len(),
{
    i + 1 < chars.len() && chars[i + 1] == c
}

fn unexpected_character_error(c: char) -> (r: String)
    ensures
        r@ == unexpected_character_message(c),
{
    let mut m = String::from_str("unexpected character `");
    let one = vec![c];
    let text = chars_to_string(&one);
    m.append(text.as_str());
    m.append("`");
    assert(one@ =~= seq![c]);
    m
}

fn integer_too_large_error(digits: &Vec<char>) -> (r: String)
    ensures
        r@ == integer_too_large_message(digits@),
{
    let mut m = String::from_str("invalid integer literal `");
    let text = chars_to_string(digits);
    m.append(text.as_str());
    m.append("`: number too large to fit in target type");
    m
}

fn same_chars(a: &Vec<char>, b: &Vec<char>) -> (r: bool)
    ensures
        r == (a@ == b@),
{
    if a.len() != b.len() {
        return false;
    }
    let mut k: usize = 0;
    while k < a.len()
        invariant
            a.len() == b.len(),
            k <= a.len(),
            forall|m: int| 0 <= m < k ==> a@[m] == b@[m],
        decreases a.len() - k,
    {
        if a[k] != b[k] {
            return false;
        }
        k += 1;
    }
    assert(a@ =~= b@);
    true
}

fn word_to_token(word: Vec<char>) -> (r: Token)
    ensures
        r@ == word_token(word@),
{
    let kw_int = vec!['i', 'n', 't'];
    let kw_void = vec!['v', 'o', 'i', 'd'];
    let kw_return = vec!['r', 'e', 't', 'u', 'r', 'n'];
    let kw_if = vec!['i', 'f'];
    let kw_else = vec!['e', 'l', 's', 'e'];
    let kw_while = vec!['w', 'h', 'i', 'l', 'e'];
    let kw_for = vec!['f', 'o', 'r'];
    let kw_break = vec!['b', 'r', 'e', 'a', 'k'];
    let kw_continue = vec!['c', 'o', 'n', 't', 'i', 'n', 'u', 'e'];
    assert(kw_int@ =~= seq!['i', 'n', 't']);
    assert(kw_void@ =~= seq!['v', 'o', 'i', 'd']);
    assert(kw_return@ =~= seq!['r', 'e', 't', 'u', 'r', 'n']);
    assert(kw_if@ =~= seq!['i', 'f']);
    assert(kw_else@ =~= seq!['e', 'l', 's', 'e']);
    assert(kw_while@ =~= seq!['w', 'h', 'i', 'l', 'e']);
    assert(kw_for@ =~= seq!['f', 'o', 'r']);
    assert(kw_break@ =~= seq!['b', 'r', 'e', 'a', 'k']);
    assert(kw_continue@ =~= seq!['c', 'o', 'n', 't', 'i', 'n', 'u', 'e']);
    if same_chars(&word, &kw_int) {
        Token::Int
    } else if same_chars(&word, &kw_void) {
        Token::Void
    } else if same_chars(&word, &kw_return) {
        Token::Return
    } else if same_chars(&word, &kw_if) {
        Token::If
    } else if same_chars(&word, &kw_else) {
        Token::Else
    } else if same_chars(&word, &kw_while) {
        Token::While
    } else if same_chars(&word, &kw_for) {
        Token::For
    } else if same_chars(&word, &kw_break) {
        Token::Break
    } else if same_chars(&word, &kw_continue) {
        Token::Continue
    } else {
        Token::Identifier(chars_to_string(&word))
    }
}

/// Lexes the integer literal that starts at `i`; returns it and the index after it.
fn scan_integer(chars: &Vec<char>, i: usize) -> (r: Result<(Token, usize), String>)
    requires
        i < chars.len(),
        is_digit(chars@[i as int]),
    ensures
        match r {
            Ok((t, j)) => i < j <= chars.len() && scan_token(chars@.skip(i as int)) == Ok::<
                (TokenView, nat),
                Seq<char>,
            >((t@, (j - i) as nat)),
            Err(e) => scan_token(chars@.skip(i as int)) == Err::<(TokenView, nat), Seq<char>>(e@),
        },
{
    let ghost s = chars@;
    let mut digits: Vec<char> = Vec::new();
    let mut value: u64 = 0;
    let mut too_large = false;
    let mut j = i;
    while j < chars.len() && char_is_digit(chars[j])
        invariant
            i <= j <= chars.len(),
            s == chars@,
            digits@ == s.subrange(i as int, j as int),
            digit_run(s.skip(i as int)) == (j - i) + digit_run(s.skip(j as int)),
            !too_large ==> value == decimal_value(digits@) && value <= i32::MAX,
            too_large ==> decimal_value(digits@) > i32::MAX,
        decreases chars.len() - j,
    {
        let c = chars[j];
        proof {
            lemma_skip_step(s, j as int);
            assert(digits@.push(c).drop_last() =~= digits@);
        }
        let d = (c as u32 - '0' as u32) as u64;
        assert(d == (c as nat - '0' as nat));
        if !too_large {
            value = value * 10 + d;
            if value > 2147483647 {
                too_large = true;
            }
        } else {
            proof {
                assert(decimal_value(digits@.push(c)) >= decimal_value(digits@));
            }
        }
        digits.push(c);
        j += 1;
        assert(digits@ =~= s.subrange(i as int, j as int));
    }
    proof {
        if j < chars.len() {
            lemma_skip_step(s, j as int);
        }
        assert(digit_run(s.skip(j as int)) == 0);
        assert(s.skip(i as int).take((j - i) as int) =~= digits@);
        lemma_skip_step(s, i as int);
    }
    if too_large {
        Err(integer_too_large_error(&digits))
    } else {
        Ok((Token::Integer(value as i32), j))
    }
}

/// Lexes the keyword or identifier that starts at `i`.
fn scan_word(chars: &Vec<char>, i: usize) -> (r: (Token, usize))
    requires
        i < chars.len(),
        is_ident_start(chars@[i as int]),
    ensures
        i < r.1 <= chars.len(),
        scan_token(chars@.skip(i as int)) == Ok::<(TokenView, nat), Seq<char>>(
            (r.0@, (r.1 - i) as nat),
        ),
{
    let ghost s = chars@;
    let mut word: Vec<char> = Vec::new();
    let mut j = i;
    while j < chars.len() && char_is_ident_char(chars[j])
        invariant
            i <= j <= chars.len(),
            s == chars@,
            word@ == s.subrange(i as int, j as int),
            ident_run(s.skip(i as int)) == (j - i) + ident_run(s.skip(j as int)),
        decreases chars.len() - j,
    {
        proof {
            lemma_skip_step(s, j as int);
        }
        word.push(chars[j]);
        j += 1;
        assert(word@ =~= s.subrange(i as int, j as int));
    }
    proof {
        if j < chars.len() {
            lemma_skip_step(s, j as int);
        }
        assert(ident_run(s.skip(j as int)) == 0);
        assert(s.skip(i as int).take((j - i) as int) =~= word@);
        lemma_skip_step(s, i as int);
        assert(j > i);
    }
    (word_to_token(word), j)
}

/// The token that starts at `i`, where neither whitespace nor a comment starts.
fn scan_at(chars: &Vec<char>, i: usize) -> (r: Result<(Token, usize), String>)
    requires
        i < chars.len(),
    ensures
        match r {
            Ok((t, j)) => i < j <= chars.len() && scan_token(chars@.skip(i as int)) == Ok::<
                (TokenView, nat),
                Seq<char>,
            >((t@, (j - i) as nat)),
            Err(e) => scan_token(chars@.skip(i as int)) == Err::<(TokenView, nat), Seq<char>>(e@),
        },
{
    let ghost s = chars@.skip(i as int);
    proof {
        lemma_skip_step(chars@, i as int);
    }
    let c = chars[i];
    if c == '+' {
        if next_is(chars, i, '+') {
            Ok((Token::PlusPlus, i + 2))
        } else if next_is(chars, i, '=') {
            Ok((Token::PlusEqual, i + 2))
        } else {
            Ok((Token::Plus, i + 1))
        }
    } else if c == '-' {
        if next_is(chars, i, '-') {
            Ok((Token::MinusMinus, i + 2))
        } else if next_is(chars, i, '=') {
            Ok((Token::MinusEqual, i + 2))
        } else {
            Ok((Token::Minus, i + 1))
        }
    } else if c == '*' {
        if next_is(chars, i, '=') {
            Ok((Token::StarEqual, i + 2))
        } else {
            Ok((Token::Star, i + 1))
        }
    } else if c == '/' {
        if next_is(chars, i, '=') {
            Ok((Token::SlashEqual, i + 2))
        } else {
            Ok((Token::Slash, i + 1))
        }
    } else if c == '%' {
        if next_is(chars, i, '=') {
            Ok((Token::PercentEqual, i + 2))
        } else {
            Ok((Token::Percent, i + 1))
        }
    } else if c == '(' {
        Ok((Token::LeftParen, i + 1))
    } else if c == ')' {
        Ok((Token::RightParen, i + 1))
    } else if c == '{' {
        Ok((Token::LeftBrace, i + 1))
    } else if c == '}' {
        Ok((Token::RightBrace, i + 1))
    } else if c == ';' {
        Ok((Token::Semicolon, i + 1))
    } else if c == ',' {
        Ok((Token::Comma, i + 1))
    } else if c == '?' {
        Ok((Token::Question, i + 1))
    } else if c == ':' {
        Ok((Token::Colon, i + 1))
    } else if c == '=' {
        if next_is(chars, i, '=') {
            Ok((Token::EqualEqual, i + 2))
        } else {
            Ok((Token::Equals, i + 1))
        }
    } else if c == '!' {
        if next_is(chars, i, '=') {
            Ok((Token::NotEqual, i + 2))
        } else {
            Ok((Token::Exclamation, i + 1))
        }
    } else if c == '<' {
        if next_is(chars, i, '=') {
            Ok((Token::LessEqual, i + 2))
        } else {
            Ok((Token::LessThan, i + 1))
        }
    } else if c == '>' {
        if next_is(chars, i, '=') {
            Ok((Token::GreaterEqual, i + 2))
        } else {
            Ok((Token::GreaterThan, i + 1))
        }
    } else if c == '&' {
        if next_is(chars, i, '&') {
            Ok((Token::AndAnd, i + 2))
        } else {
            Ok((Token::Ampersand, i + 1))
        }
    } else if c == '|' {
        if next_is(chars, i, '|') {
            Ok((Token::OrOr, i + 2))
        } else {
            Err(String::from_str("expected '|' after '|'"))
        }
    } else if char_is_digit(c) {
        scan_integer(chars, i)
    } else if char_is_ident_start(c) {
        let (t, j) = scan_word(chars, i);
        Ok((t, j))
    } else {
        Err(unexpected_character_error(c))
    }
}

/// The lexing of `s`, given that `done` are the tokens of the part before.
pub open spec fn after(done: Seq<TokenView>, r: Result<Seq<TokenView>, Seq<char>>) -> Result<
    Seq<TokenView>,
    Seq<char>,
> {
    match r {
        Ok(rest) => Ok(done + rest),
        Err(e) => Err(e),
    }
}

/// Splits C source text into tokens. Whitespace and `//` and `/* */`
/// comments separate tokens and are dropped.
pub fn tokenize(source: &str) -> (r: Result<Vec<Token>, String>)
    ensures
        match r {
            Ok(tokens) => lex(source@) == Ok::<Seq<TokenView>, Seq<char>>(tokens_view(tokens@)),
            Err(message) => lex(source@) == Err::<Seq<TokenView>, Seq<char>>(message@),
        },
{
    let chars = source_chars(source);
    let ghost s = chars@;
    let n = chars.len();
    let mut tokens: Vec<Token> = Vec::new();
    let mut i: usize = 0;
    assert(s.skip(0) =~= s);
    while i < n
        invariant
            n == chars.len(),
            s == chars@,
            s == source@,
            i <= n,
            lex(s) == after(tokens_view(tokens@), lex(s.skip(i as int))),
        decreases n - i,
    {
        let ghost rest = s.skip(i as int);
        proof {
            lemma_skip_step(s, i as int);
        }
        let c = chars[i];
        if char_is_space(c) {
            i += 1;
        } else if c == '/' && next_is(&chars, i, '/') {
            let mut j = i + 2;
            assert(rest.skip(2) =~= s.skip(j as int));
            while j < n && chars[j] != '\n'
                invariant
                    i + 2 <= j <= n,
                    n == chars.len(),
                    s == chars@,
                    line_rest(rest.skip(2)) == (j - (i + 2)) + line_rest(s.skip(j as int)),
                decreases n - j,
            {
                proof {
                    lemma_skip_step(s, j as int);
                }
                j += 1;
            }
            proof {
                if j < n {
                    lemma_skip_step(s, j as int);
                }
                assert(rest.skip(2 + line_rest(rest.skip(2)) as int) =~= s.skip(j as int));
            }
            i = j;
        } else if c == '/' && next_is(&chars, i, '*') {
            let mut j = i + 2;
            assert(rest.skip(2) =~= s.skip(j as int));
            while n - j > 1 && !(chars[j] == '*' && chars[j + 1] == '/')
                invariant
                    i + 2 <= j <= n,
                    n == chars.len(),
                    s == chars@,
                    block_rest(rest.skip(2)) == match block_rest(s.skip(j as int)) {
                        Some(k) => Some((k + (j - (i + 2))) as nat),
                        None => None::<nat>,
                    },
                decreases n - j,
            {
                proof {
                    lemma_skip_step(s, j as int);
                }
                j += 1;
            }
            if n - j > 1 {
                proof {
                    lemma_skip_step(s, j as int);
                    assert(rest.skip(2 + block_rest(rest.skip(2)).unwrap() as int) =~= s.skip(
                        j + 2,
                    ));
                }
                i = j + 2;
            } else {
                proof {
                    assert(s.skip(j as int).len() < 2);
                }
                return Err(String::from_str("unterminated block comment"));
            }
        } else {
            match scan_at(&chars, i) {
                Ok((t, j)) => {
                    proof {
                        assert(rest.skip((j - i) as int) =~= s.skip(j as int));
                        assert(tokens_view(tokens@.push(t)) =~= tokens_view(tokens@) + seq![t@]);
                        if let Ok(later) = lex(s.skip(j as int)) {
                            assert(tokens_view(tokens@) + (seq![t@] + later) =~= (tokens_view(
                                tokens@,
                            ) + seq![t@]) + later);
                        }
                    }
                    tokens.push(t);
                    i = j;
                },
                Err(e) => {
                    return Err(e);
                },
            }
        }
    }
    proof {
        assert(tokens_view(tokens@) + Seq::<TokenView>::empty() =~= tokens_view(tokens@));
    }
    Ok(tokens)
}

/// Whether two tokens are the same token.
pub(crate) fn same_token(a: &Token, b: &Token) -> (r: bool)
    ensures
        r == (a@ == b@),
{
    match (a, b) {
        (Token::Identifier(x), Token::Identifier(y)) => *x == *y,
        (Token::Integer(x), Token::Integer(y)) => *x == *y,
        (Token::Int, Token::Int) => true,
        (Token::Void, Token::Void) => true,
        (Token::Return, Token::Return) => true,
        (Token::If, Token::If) => true,
        (Token::Else, Token::Else) => true,
        (Token::While, Token::While) => true,
        (Token::For, Token::For) => true,
        (Token::Break, Token::Break) => true,
        (Token::Continue, Token::Continue) => true,
        (Token::Plus, Token::Plus) => true,
        (Token::Minus, Token::Minus) => true,
        (Token::Star, Token::Star) => true,
        (Token::Slash, Token::Slash) => true,
        (Token::Percent, Token::Percent) => true,
        (Token::LeftParen, Token::LeftParen) => true,
        (Token::RightParen, Token::RightParen) => true,
        (Token::LeftBrace, Token::LeftBrace) => true,
        (Token::RightBrace, Token::RightBrace) => true,
        (Token::Semicolon, Token::Semicolon) => true,
        (Token::Comma, Token::Comma) => true,
        (Token::Question, Token::Question) => true,
        (Token::Colon, Token::Colon) => true,
        (Token::Equals, Token::Equals) => true,
        (Token::EqualEqual, Token::EqualEqual) => true,
        (Token::NotEqual, Token::NotEqual) => true,
        (Token::LessThan, Token::LessThan) => true,
        (Token::LessEqual, Token::LessEqual) => true,
        (Token::GreaterThan, Token::GreaterThan) => true,
        (Token::GreaterEqual, Token::GreaterEqual) => true,
        (Token::AndAnd, Token::AndAnd) => true,
        (Token::OrOr, Token::OrOr) => true,
        (Token::Exclamation, Token::Exclamation) => true,
        (Token::Ampersand, Token::Ampersand) => true,
        (Token::PlusPlus, Token::PlusPlus) => true,
        (Token::MinusMinus, Token::MinusMinus) => true,
        (Token::PlusEqual, Token::PlusEqual) => true,
        (Token::MinusEqual, Token::MinusEqual) => true,
        (Token::StarEqual, Token::StarEqual) => true,
        (Token::SlashEqual, Token::SlashEqual) => true,
        (Token::PercentEqual, Token::PercentEqual) => true,
        _ => false,
    }
}

} // verus!

//! Laws of the lexer.
use vstd::prelude::*;
use crate::lexer::{
    after, block_rest, digit_run, is_ident_start, unexpected_character_message, word_token, ident_run, is_digit, is_ident_char, is_space, lex, line_rest,
    scan_token, second_is, starts_block_comment, starts_line_comment, TokenView,
};

verus! {

proof fn lemma_digit_run_append(x: Seq<char>, c: Seq<char>)
    requires
        c.len() > 0,
        !is_digit(c[0]),
    ensures
        digit_run(x + c) == digit_run(x),
    decreases x.len(),
{
    if x.len() > 0 {
        assert((x + c).drop_first() =~= x.drop_first() + c);
        lemma_digit_run_append(x.drop_first(), c);
    } else {
        assert(x + c =~= c);
    }
}

proof fn lemma_ident_run_append(x: Seq<char>, c: Seq<char>)
    requires
        c.len() > 0,
        !is_ident_char(c[0]),
    ensures
        ident_run(x + c) == ident_run(x),
    decreases x.len(),
{
    if x.len() > 0 {
        assert((x + c).drop_first() =~= x.drop_first() + c);
        lemma_ident_run_append(x.drop_first(), c);
    } else {
        assert(x + c =~= c);
    }
}

proof fn lemma_line_rest_append(x: Seq<char>, c: Seq<char>)
    requires
        c.len() > 0,
        c[0] == '\n',
    ensures
        line_rest(x + c) == line_rest(x),
    decreases x.len(),
{
    if x.len() > 0 {
        assert((x + c).drop_first() =~= x.drop_first() + c);
        lemma_line_rest_append(x.drop_first(), c);
    } else {
        assert(x + c =~= c);
    }
}

proof fn lemma_block_rest_append(x: Seq<char>, c: Seq<char>)
    requires
        block_rest(x) is Some,
    ensures
        block_rest(x + c) == block_rest(x),
    decreases x.len(),
{
    if !(x[0] == '*' && x[1] == '/') {
        assert((x + c).drop_first() =~= x.drop_first() + c);
        lemma_block_rest_append(x.drop_first(), c);
    }
}

/// A character that no token or comment can take as its next character.
pub open spec fn separates(c: char) -> bool {
    &&& !is_ident_char(c)
    &&& c != '+' && c != '-' && c != '=' && c != '&' && c != '|' && c != '/' && c != '*'
}

/// A token is scanned the same when a separating character follows it.
proof fn lemma_scan_token_append(a: Seq<char>, c: Seq<char>)
    requires
        a.len() > 0,
        c.len() > 0,
        separates(c[0]),
        scan_token(a) is Ok,
    ensures
        scan_token(a + c) == scan_token(a),
{
    let s = a + c;
    assert(s[0] == a[0]);
    assert(forall|ch: char| ch != c[0] ==> (second_is(s, ch) <==> second_is(a, ch)));
    if is_digit(a[0]) {
        lemma_digit_run_append(a, c);
        crate::lexer::lemma_digit_run_bounds(a);
        assert(s.take(digit_run(a) as int) =~= a.take(digit_run(a) as int));
    }
    if is_ident_char(a[0]) {
        lemma_ident_run_append(a, c);
        crate::lexer::lemma_ident_run_bounds(a);
        assert(s.take(ident_run(a) as int) =~= a.take(ident_run(a) as int));
    }
}

proof fn lemma_lex_append_newline(a: Seq<char>, b: Seq<char>)
    requires
        lex(a) is Ok,
    ensures
        lex(a + (seq!['\n'] + b)) == after(lex(a)->Ok_0, lex(b)),
    decreases a.len(),
{
    let c = seq!['\n'] + b;
    let s = a + c;
    if a.len() == 0 {
        assert(s =~= c);
        assert(c.drop_first() =~= b);
        if let Ok(tb) = lex(b) {
            assert(Seq::<TokenView>::empty() + tb =~= tb);
        }
    } else {
        assert(s[0] == a[0]);
        assert(second_is(s, '/') == second_is(a, '/'));
        assert(second_is(s, '*') == second_is(a, '*'));
        if is_space(a[0]) {
            assert(s.drop_first() =~= a.drop_first() + c);
            lemma_lex_append_newline(a.drop_first(), b);
        } else if starts_line_comment(a) {
            let m = line_rest(a.skip(2));
            crate::lexer::lemma_line_rest_bounds(a.skip(2));
            assert(s.skip(2) =~= a.skip(2) + c);
            lemma_line_rest_append(a.skip(2), c);
            assert(s.skip(2 + m as int) =~= a.skip(2 + m as int) + c);
            lemma_lex_append_newline(a.skip(2 + m as int), b);
        } else if starts_block_comment(a) {
            assert(s.skip(2) =~= a.skip(2) + c);
            lemma_block_rest_append(a.skip(2), c);
            let n = block_rest(a.skip(2))->Some_0;
            crate::lexer::lemma_block_rest_bounds(a.skip(2));
            assert(s.skip(2 + n as int) =~= a.skip(2 + n as int) + c);
            lemma_lex_append_newline(a.skip(2 + n as int), b);
        } else {
            lemma_scan_token_append(a, c);
            let (t, n) = scan_token(a)->Ok_0;
            crate::lexer::lemma_scan_token_bounds(a);
            assert(s.skip(n as int) =~= a.skip(n as int) + c);
            lemma_lex_append_newline(a.skip(n as int), b);
            let ta_rest = lex(a.skip(n as int))->Ok_0;
            if let Ok(tb) = lex(b) {
                assert(seq![t] + (ta_rest + tb) =~= (seq![t] + ta_rest) + tb);
            }
        }
    }
}

/// Two pieces of source text that each lex without error, joined by a
/// newline, lex to the tokens of the first followed by the tokens of the
/// second; when the second has an error, the joined text has the same one.
pub proof fn law_lex_join_by_newline(a: Seq<char>, b: Seq<char>)
    requires
        lex(a) is Ok,
    ensures
        lex(a + seq!['\n'] + b) == after(lex(a)->Ok_0, lex(b)),
{
    assert(a + seq!['\n'] + b =~= a + (seq!['\n'] + b));
    lemma_lex_append_newline(a, b);
}

/// Whether lexing `s` ends inside a `//` comment that no newline closes.
pub open spec fn ends_in_line_comment(s: Seq<char>) -> bool
    decreases s.len(),
{
    if s.len() == 0 {
        false
    } else if is_space(s[0]) {
        ends_in_line_comment(s.drop_first())
    } else if starts_line_comment(s) {
        proof {
            crate::lexer::lemma_line_rest_bounds(s.skip(2));
        }
        let m = line_rest(s.skip(2));
        if 2 + m == s.len() {
            true
        } else {
            ends_in_line_comment(s.skip(2 + m as int))
        }
    } else if starts_block_comment(s) {
        proof {
            crate::lexer::lemma_block_rest_bounds(s.skip(2));
        }
        match block_rest(s.skip(2)) {
            Some(n) => ends_in_line_comment(s.skip(2 + n as int)),
            None => false,
        }
    } else {
        proof {
            crate::lexer::lemma_scan_token_bounds(s);
        }
        match scan_token(s) {
            Ok((_, n)) => ends_in_line_comment(s.skip(n as int)),
            Err(_) => false,
        }
    }
}

proof fn lemma_line_rest_append_closed(x: Seq<char>, c: Seq<char>)
    requires
        line_rest(x) < x.len(),
    ensures
        line_rest(x + c) == line_rest(x),
    decreases x.len(),
{
    if x[0] != '\n' {
        assert((x + c).drop_first() =~= x.drop_first() + c);
        lemma_line_rest_append_closed(x.drop_first(), c);
    }
}

proof fn lemma_lex_append_separator(a: Seq<char>, cb: Seq<char>)
    requires
        lex(a) is Ok,
        cb.len() > 0,
        separates(cb[0]),
        !ends_in_line_comment(a),
    ensures
        lex(a + cb) == after(lex(a)->Ok_0, lex(cb)),
    decreases a.len(),
{
    let s = a + cb;
    if a.len() == 0 {
        assert(s =~= cb);
        if let Ok(t) = lex(cb) {
            assert(Seq::<TokenView>::empty() + t =~= t);
        }
    } else {
        assert(s[0] == a[0]);
        assert(second_is(s, '/') == second_is(a, '/'));
        assert(second_is(s, '*') == second_is(a, '*'));
        if is_space(a[0]) {
            assert(s.drop_first() =~= a.drop_first() + cb);
            lemma_lex_append_separator(a.drop_first(), cb);
        } else if starts_line_comment(a) {
            let m = line_rest(a.skip(2));
            crate::lexer::lemma_line_rest_bounds(a.skip(2));
            assert(s.skip(2) =~= a.skip(2) + cb);
            lemma_line_rest_append_closed(a.skip(2), cb);
            assert(s.skip(2 + m as int) =~= a.skip(2 + m as int) + cb);
            lemma_lex_append_separator(a.skip(2 + m as int), cb);
        } else if starts_block_comment(a) {
            assert(s.skip(2) =~= a.skip(2) + cb);
            lemma_block_rest_append(a.skip(2), cb);
            let n = block_rest(a.skip(2))->Some_0;
            crate::lexer::lemma_block_rest_bounds(a.skip(2));
            assert(s.skip(2 + n as int) =~= a.skip(2 + n as int) + cb);
            lemma_lex_append_separator(a.skip(2 + n as int), cb);
        } else {
            lemma_scan_token_append(a, cb);
            let (t, n) = scan_token(a)->Ok_0;
            crate::lexer::lemma_scan_token_bounds(a);
            assert(s.skip(n as int) =~= a.skip(n as int) + cb);
            lemma_lex_append_separator(a.skip(n as int), cb);
            let ta_rest = lex(a.skip(n as int))->Ok_0;
            if let Ok(tb) = lex(cb) {
                assert(seq![t] + (ta_rest + tb) =~= (seq![t] + ta_rest) + tb);
            }
        }
    }
}

/// Two pieces of source text joined by a whitespace character lex to the
/// tokens of the first followed by those of the second, or to the second's
/// error; the first must lex without error and must not end inside a `//`
/// comment, which a character other than a newline would not close.
pub proof fn law_lex_join_by_whitespace(a: Seq<char>, c: char, b: Seq<char>)
    requires
        lex(a) is Ok,
        is_space(c),
        !ends_in_line_comment(a),
    ensures
        lex(a + seq![c] + b) == after(lex(a)->Ok_0, lex(b)),
{
    let cb = seq![c] + b;
    assert(a + seq![c] + b =~= a + cb);
    assert(cb.drop_first() =~= b);
    lemma_lex_append_separator(a, cb);
}

/// A character that begins no token, no comment and no whitespace.
pub open spec fn begins_nothing(c: char) -> bool {
    &&& !is_space(c)
    &&& !is_ident_char(c)
    &&& c != '+' && c != '-' && c != '*' && c != '/' && c != '%'
    &&& c != '(' && c != ')' && c != '{' && c != '}' && c != ';' && c != ','
    &&& c != '?' && c != ':' && c != '=' && c != '!' && c != '<' && c != '>'
    &&& c != '&' && c != '|'
}

/// The first character that begins nothing is the error of the whole
/// text: after text that lexes without error and does not end inside a
/// `//` comment, such a character fails lexing with its own message,
/// whatever follows it.
pub proof fn law_first_unexpected_character(a: Seq<char>, c: char, b: Seq<char>)
    requires
        lex(a) is Ok,
        !ends_in_line_comment(a),
        begins_nothing(c),
    ensures
        lex(a + seq![c] + b) == Err::<Seq<TokenView>, Seq<char>>(unexpected_character_message(c)),
{
    let cb = seq![c] + b;
    assert(a + seq![c] + b =~= a + cb);
    assert(cb[0] == c);
    assert(scan_token(cb) == Err::<(TokenView, nat), Seq<char>>(unexpected_character_message(c)));
    lemma_lex_append_separator(a, cb);
}

/// The run of identifier characters at the front of a word followed by a
/// character that cannot continue it is the whole word.
proof fn lemma_ident_run_word(w: Seq<char>, b: Seq<char>)
    requires
        forall|i: int| 0 <= i < w.len() ==> is_ident_char(#[trigger] w[i]),
        b.len() == 0 || !is_ident_char(b[0]),
    ensures
        ident_run(w + b) == w.len(),
    decreases w.len(),
{
    if w.len() == 0 {
        assert(w + b =~= b);
    } else {
        assert((w + b).drop_first() =~= w.drop_first() + b);
        assert(forall|i: int| 0 <= i < w.drop_first().len() ==> w.drop_first()[i] == w[i + 1]);
        lemma_ident_run_word(w.drop_first(), b);
    }
}

/// A word (a letter or `_`, then letters, digits and `_`) lexes to one
/// token that covers all of it: text that starts with the word, where the
/// word is not followed by another identifier character, lexes to the
/// word's token followed by the tokens of the rest.
pub proof fn law_word_is_one_token(w: Seq<char>, b: Seq<char>)
    requires
        w.len() > 0,
        is_ident_start(w[0]),
        forall|i: int| 0 <= i < w.len() ==> is_ident_char(#[trigger] w[i]),
        b.len() == 0 || !is_ident_char(b[0]),
    ensures
        lex(w + b) == after(seq![word_token(w)], lex(b)),
{
    let s = w + b;
    assert(s[0] == w[0]);
    lemma_ident_run_word(w, b);
    assert(s.take(w.len() as int) =~= w);
    assert(scan_token(s) == Ok::<(TokenView, nat), Seq<char>>((word_token(w), w.len())));
    crate::lexer::lemma_scan_token_bounds(s);
    assert(s.skip(w.len() as int) =~= b);
    if let Ok(tb) = lex(b) {
        assert(seq![word_token(w)] + tb == seq![word_token(w)] + tb);
    }
}

} // verus!

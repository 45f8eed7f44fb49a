//! The lexer: from a piece of source text to its tokens.
//!
//! Whitespace separates tokens, and `//` begins a comment that runs to the
//! end of the text. A sign or a bracket is a token of its own, `::` is one
//! token, and any other run of characters is a word: a literal where it
//! begins with a digit, else an identifier.

use crate::constraint::is_digit;
use crate::text::{char_is_space, is_space, to_chars};
use crate::tokens::{token_views, Token, TokenView};
use vstd::prelude::*;
use vstd::string::*;

verus! {

/// Whether `c` is a sign or a bracket of the grammar, or a colon.
pub open spec fn is_symbol(c: char) -> bool {
    c == '+' || c == '-' || c == ':' || c == '#' || c == '<' || c == '{' || c == '}' || c == '['
        || c == ']'
}

/// Whether `c` can stand in a word.
pub open spec fn is_word_char(c: char) -> bool {
    !is_space(c) && !is_symbol(c)
}

/// The length of the longest prefix of `s` that is made of word characters.
pub open spec fn word_run(s: Seq<char>) -> int
    decreases s.len(),
{
    if s.len() == 0 || !is_word_char(s[0]) {
        0
    } else {
        1 + word_run(s.drop_first())
    }
}

/// The token that the symbol `c` is. A colon alone is no token of the
/// grammar.
pub open spec fn symbol_token(c: char) -> TokenView {
    if c == '+' {
        TokenView::Plus
    } else if c == '-' {
        TokenView::Minus
    } else if c == '#' {
        TokenView::Pound
    } else if c == '<' {
        TokenView::Less
    } else if c == '{' {
        TokenView::OpenBrace
    } else if c == '}' {
        TokenView::CloseBrace
    } else if c == '[' {
        TokenView::OpenBracket
    } else if c == ']' {
        TokenView::CloseBracket
    } else {
        TokenView::Other(":"@)
    }
}

/// The token that the word `w` is.
pub open spec fn word_token(w: Seq<char>) -> TokenView {
    if w.len() > 0 && is_digit(w[0]) {
        TokenView::Literal(w)
    } else {
        TokenView::Ident(w)
    }
}

/// Whether a comment begins at the front of `s`.
pub open spec fn begins_comment(s: Seq<char>) -> bool {
    s.len() >= 2 && s[0] == '/' && s[1] == '/'
}

/// The tokens of the text `s`.
pub open spec fn tokens_of(s: Seq<char>) -> Seq<TokenView>
    decreases s.len(),
{
    if s.len() == 0 || begins_comment(s) {
        Seq::empty()
    } else if is_space(s[0]) {
        tokens_of(s.drop_first())
    } else if s.len() >= 2 && s[0] == ':' && s[1] == ':' {
        seq![TokenView::PathSep] + tokens_of(s.skip(2))
    } else if is_symbol(s[0]) {
        seq![symbol_token(s[0])] + tokens_of(s.drop_first())
    } else {
        let k = word_run(s);
        if 0 < k <= s.len() {
            seq![word_token(s.take(k))] + tokens_of(s.skip(k))
        } else {
            Seq::empty()
        }
    }
}

/// `word_run` is the one position before which only word characters stand
/// and at which none does, or the end.
pub proof fn lemma_word_run(s: Seq<char>, k: int)
    requires
        0 <= k <= s.len(),
        forall|j: int| 0 <= j < k ==> is_word_char(s[j]),
        k < s.len() ==> !is_word_char(s[k]),
    ensures
        word_run(s) == k,
    decreases s.len(),
{
    if s.len() == 0 || !is_word_char(s[0]) {
    } else {
        lemma_word_run(s.drop_first(), k - 1);
    }
}

/// Executable test for `is_symbol`.
fn char_is_symbol(c: char) -> (r: bool)
    ensures
        r == is_symbol(c),
{
    c == '+' || c == '-' || c == ':' || c == '#' || c == '<' || c == '{' || c == '}' || c == '['
        || c == ']'
}

/// The token that the symbol `c` is.
fn token_of_symbol(c: char) -> (r: Token)
    requires
        is_symbol(c),
    ensures
        r@ == symbol_token(c),
{
    if c == '+' {
        Token::Plus
    } else if c == '-' {
        Token::Minus
    } else if c == '#' {
        Token::Pound
    } else if c == '<' {
        Token::Less
    } else if c == '{' {
        Token::OpenBrace
    } else if c == '}' {
        Token::CloseBrace
    } else if c == '[' {
        Token::OpenBracket
    } else if c == ']' {
        Token::CloseBracket
    } else {
        Token::Other(String::from_str(":"))
    }
}

/// The tokens of the text `s`, as `tokens_of` defines them.
pub fn lex(s: &str) -> (r: Vec<Token>)
    ensures
        token_views(r@) == tokens_of(s@),
{
    let v = to_chars(s);
    let n = v.len();
    let mut out: Vec<Token> = Vec::new();
    let mut start: usize = 0;
    assert(v@.skip(0) =~= v@);
    assert(token_views(out@) =~= Seq::empty());
    assert(Seq::<TokenView>::empty() + tokens_of(v@) =~= tokens_of(v@));
    while start < n
        invariant
            start <= n,
            n == v@.len(),
            v@ == s@,
            token_views(out@) + tokens_of(v@.skip(start as int)) == tokens_of(v@),
        decreases n - start,
    {
        let ghost rest = v@.skip(start as int);
        let ghost before = token_views(out@);
        let c = v[start];
        assert(rest[0] == c);
        if c == '/' && n - start >= 2 && v[start + 1] == '/' {
            assert(rest[1] == v@[start + 1]);
            assert(before + Seq::<TokenView>::empty() =~= before);
            return out;
        }
        if n - start >= 2 {
            assert(rest[1] == v@[start + 1]);
        }
        if char_is_space(c) {
            assert(rest.drop_first() =~= v@.skip(start + 1));
            start = start + 1;
        } else if c == ':' && n - start >= 2 && v[start + 1] == ':' {
            out.push(Token::PathSep);
            assert(token_views(out@) =~= before.push(TokenView::PathSep));
            assert(rest.skip(2) =~= v@.skip(start + 2));
            assert(before.push(TokenView::PathSep) + tokens_of(v@.skip(start + 2)) =~= before + (
            seq![TokenView::PathSep] + tokens_of(v@.skip(start + 2))));
            start = start + 2;
        } else if char_is_symbol(c) {
            let t = token_of_symbol(c);
            out.push(t);
            assert(token_views(out@) =~= before.push(t@));
            assert(rest.drop_first() =~= v@.skip(start + 1));
            assert(before.push(t@) + tokens_of(v@.skip(start + 1)) =~= before + (seq![t@]
                + tokens_of(v@.skip(start + 1))));
            start = start + 1;
        } else {
            let mut e: usize = start + 1;
            while e < n && !char_is_space(v[e]) && !char_is_symbol(v[e])
                invariant
                    start < e <= n,
                    n == v@.len(),
                    forall|j: int| start <= j < e ==> is_word_char(v@[j]),
                decreases n - e,
            {
                e = e + 1;
            }
            proof {
                lemma_word_run(rest, e - start);
                assert(rest.take(e - start) =~= v@.subrange(start as int, e as int));
                assert(rest.skip(e - start) =~= v@.skip(e as int));
            }
            let word = s.substring_char(start, e);
            let t = if c >= '0' && c <= '9' {
                Token::Literal(String::from_str(word))
            } else {
                Token::Ident(String::from_str(word))
            };
            assert(t@ == word_token(word@));
            out.push(t);
            assert(token_views(out@) =~= before.push(t@));
            assert(before.push(t@) + tokens_of(v@.skip(e as int)) =~= before + (seq![t@]
                + tokens_of(v@.skip(e as int))));
            start = e;
        }
    }
    assert(v@.skip(n as int) =~= Seq::<char>::empty());
    assert(token_views(out@) + Seq::<TokenView>::empty() =~= token_views(out@));
    out
}

} // verus!

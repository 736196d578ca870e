//! The template lexer: raw runs and whole expressions, each with the whitespace around it.
use vstd::prelude::*;
use crate::text::{
    char_at, is_char_at, run_end, scan_run, scan_ws, string_of, ws_end, CharClass,
};
use crate::token::{Token, TokenKind, TokenView, token_views};

verus! {

/// The first position from `i` on where two closing braces stand side by side.
pub open spec fn find_close(s: Seq<char>, i: int) -> Option<int>
    decreases s.len() - i,
{
    if i < 0 || i + 2 > s.len() {
        None
    } else if s[i] == '}' && s[i + 1] == '}' {
        Some(i)
    } else {
        find_close(s, i + 1)
    }
}

/// `find_close` gives the first pair of closing braces, and none when there is none.
pub(crate) proof fn lemma_find_close(s: Seq<char>, i: int)
    requires
        0 <= i,
    ensures
        match find_close(s, i) {
            Some(k) => i <= k && k + 2 <= s.len() && s[k] == '}' && s[k + 1] == '}'
                && forall|j: int| i <= j < k ==> !(#[trigger] s[j] == '}' && s[j + 1] == '}'),
            None => forall|j: int| i <= j && j + 2 <= s.len() ==> !(#[trigger] s[j] == '}' && s[j + 1] == '}'),
        },
    decreases s.len() - i,
{
    if i + 2 <= s.len() && !(s[i] == '}' && s[i + 1] == '}') {
        lemma_find_close(s, i + 1);
    }
}

/// Looks for the first pair of closing braces from `i` on.
fn scan_close(chars: &Vec<char>, i: usize) -> (r: Option<usize>)
    ensures
        match r {
            Some(k) => find_close(chars@, i as int) == Some(k as int) && i <= k && k + 2
                <= chars.len() && chars@[k as int] == '}' && chars@[k + 1] == '}' && forall|j: int|
                i <= j < k ==> !(#[trigger] chars@[j] == '}' && chars@[j + 1] == '}'),
            None => find_close(chars@, i as int) is None && forall|j: int|
                i <= j && j + 2 <= chars.len() ==> !(#[trigger] chars@[j] == '}' && chars@[j + 1]
                    == '}'),
        },
{
    let mut j: usize = i;
    while j < chars.len() && 1 < chars.len() - j
        invariant
            i <= j,
            find_close(chars@, i as int) == find_close(chars@, j as int),
        decreases chars.len() - j,
    {
        if chars[j] == '}' && chars[j + 1] == '}' {
            proof {
                lemma_find_close(chars@, i as int);
            }
            return Some(j);
        }
        j += 1;
    }
    proof {
        lemma_find_close(chars@, i as int);
    }
    None
}

/// Where raw text that starts at `i` ends: it runs over plain characters, and over
/// an opening brace that a plain character follows.
pub open spec fn plain_end(s: Seq<char>, i: int) -> int
    decreases s.len() - i,
{
    if 0 <= i < s.len() && CharClass::Plain.holds(s[i]) {
        plain_end(s, i + 1)
    } else if 0 <= i && i + 1 < s.len() && s[i] == '{' && CharClass::Plain.holds(s[i + 1]) {
        plain_end(s, i + 2)
    } else {
        i
    }
}

/// Measures the raw text that starts at `i`.
fn scan_plain(chars: &Vec<char>, i: usize) -> (j: usize)
    requires
        i <= chars.len(),
    ensures
        j == plain_end(chars@, i as int),
        i <= j <= chars.len(),
{
    let mut j: usize = i;
    loop
        invariant
            i <= j <= chars.len(),
            plain_end(chars@, i as int) == plain_end(chars@, j as int),
        decreases chars.len() - j,
    {
        if j < chars.len() && CharClass::Plain.has(chars[j]) {
            j += 1;
        } else if j < chars.len() && 1 < chars.len() - j && chars[j] == '{' && CharClass::Plain.has(
            chars[j + 1],
        ) {
            j += 2;
        } else {
            return j;
        }
    }
}

/// Whether `s[from..k]` is what may stand before the closing braces of a bare
/// else branch: blanks, then at most one tilde.
pub open spec fn is_close_pad(s: Seq<char>, from: int, k: int) -> bool {
    let j = run_end(s, from, CharClass::Blank);
    j == k || (char_at(s, j, '~') && j + 1 == k)
}

/// Whether `s[from..k]` is the word `else`, with nothing but spaces, tabs and
/// carriage returns around it and at most one tilde behind it.
pub open spec fn is_else_payload(s: Seq<char>, from: int, k: int) -> bool {
    let j = run_end(s, from, CharClass::Inline);
    let m = run_end(s, j + 4, CharClass::Inline);
    &&& char_at(s, j, 'e')
    &&& char_at(s, j + 1, 'l')
    &&& char_at(s, j + 2, 's')
    &&& char_at(s, j + 3, 'e')
    &&& (m == k || (char_at(s, m, '~') && m + 1 == k))
}

/// The flavour of the expression whose first payload character stands at `i` and
/// whose closing braces stand at `k`, and the position behind its last brace.
pub open spec fn classify(s: Seq<char>, i: int, k: int) -> (TokenKind, int) {
    let c = s[i];
    if c == '#' {
        (TokenKind::Block(false), k + 2)
    } else if c == '^' {
        if is_close_pad(s, i + 1, k) {
            (TokenKind::Else, k + 2)
        } else {
            (TokenKind::Block(true), k + 2)
        }
    } else if c == '/' {
        (TokenKind::End, k + 2)
    } else if c == '>' {
        (TokenKind::Partial, k + 2)
    } else if c == '!' {
        (TokenKind::Comment, k + 2)
    } else if c == '&' {
        (TokenKind::NoEscape, k + 2)
    } else if c == '{' {
        if char_at(s, k + 2, '}') {
            (TokenKind::NoEscape, k + 3)
        } else {
            (TokenKind::Simple, k + 2)
        }
    } else if is_else_payload(s, i, k) {
        (TokenKind::Else, k + 2)
    } else {
        (TokenKind::Simple, k + 2)
    }
}

/// The expression that opens at `q`, where two opening braces stand: its flavour
/// and the position behind its last closing brace. A tilde behind the opening
/// braces is the whitespace sigil wherever closing braces follow the character
/// after it; the character after the sigil decides the flavour, and the closing
/// braces are the first pair behind that character.
pub open spec fn expression_at(s: Seq<char>, q: int) -> Option<(TokenKind, int)> {
    let a = q + 2;
    if char_at(s, a, '~') && find_close(s, a + 2) is Some {
        Some(classify(s, a + 1, find_close(s, a + 2)->0))
    } else {
        match find_close(s, a + 1) {
            Some(k) => Some(classify(s, a, k)),
            None => None,
        }
    }
}

/// What a backslash at `p` stands for, and where the next token starts: an escaped
/// opening brace or backslash gives that character alone; before anything else
/// the backslash stays, together with the character that follows it on the line.
pub open spec fn escape_at(s: Seq<char>, p: int) -> (Seq<char>, int) {
    if char_at(s, p + 1, '{') {
        (seq!['{'], p + 2)
    } else if char_at(s, p + 1, '\\') {
        if p + 2 < s.len() && s[p + 2] != '{' && s[p + 2] != '\\' && s[p + 2] != '\r' && s[p + 2]
            != '\n' {
            (s.subrange(p, p + 3), p + 3)
        } else {
            (seq!['\\'], p + 2)
        }
    } else if p + 1 < s.len() && s[p + 1] != '\r' && s[p + 1] != '\n' {
        (s.subrange(p, p + 2), p + 2)
    } else {
        (seq!['\\'], p + 1)
    }
}

/// The token that starts at `p`, and where the next one starts. Whitespace in
/// front of an expression goes with the expression, as does the whitespace
/// behind it: blanks and line breaks. A carriage return that no line feed
/// follows is no such whitespace: whitespace that holds one stays raw text in
/// front of an expression, and ends the whitespace behind one. Raw text ends
/// where whitespace begins anew; a backslash is read with what it escapes;
/// and an opening brace that opens nothing is raw text by itself. `None` where
/// two opening braces start no complete expression.
pub open spec fn next_token(s: Seq<char>, p: int) -> Option<(TokenView, int)> {
    let q = run_end(s, p, CharClass::Space);
    if char_at(s, q, '{') && char_at(s, q + 1, '{') && ws_end(s, p) == q {
        match expression_at(s, q) {
            Some((kind, close)) => {
                let e = ws_end(s, close);
                Some((TokenView::Exp(kind, s.subrange(p, e)), e))
            },
            None => if q > p {
                Some((TokenView::Raw(s.subrange(p, q)), q))
            } else {
                None
            },
        }
    } else {
        let r = plain_end(s, q);
        if r > p {
            Some((TokenView::Raw(s.subrange(p, r)), r))
        } else if s[p] == '\\' {
            Some((TokenView::Raw(escape_at(s, p).0), escape_at(s, p).1))
        } else {
            Some((TokenView::Raw(s.subrange(p, p + 1)), p + 1))
        }
    }
}

fn check_close_pad(chars: &Vec<char>, from: usize, k: usize) -> (r: bool)
    requires
        from <= chars.len(),
    ensures
        r == is_close_pad(chars@, from as int, k as int),
{
    let j = scan_run(chars, from, CharClass::Blank);
    j == k || (is_char_at(chars, j, 0, '~') && j < k && j + 1 == k)
}

fn check_else_payload(chars: &Vec<char>, from: usize, k: usize) -> (r: bool)
    requires
        from <= chars.len(),
    ensures
        r == is_else_payload(chars@, from as int, k as int),
{
    let n = chars.len();
    let j = scan_run(chars, from, CharClass::Inline);
    if is_char_at(chars, j, 0, 'e') && is_char_at(chars, j, 1, 'l') && is_char_at(chars, j, 2, 's')
        && is_char_at(chars, j, 3, 'e') {
        let m = scan_run(chars, j + 4, CharClass::Inline);
        m == k || (is_char_at(chars, m, 0, '~') && m < k && m + 1 == k)
    } else {
        false
    }
}

fn classify_at(chars: &Vec<char>, i: usize, k: usize) -> (r: (TokenKind, usize))
    requires
        i < k,
        k + 2 <= chars.len(),
    ensures
        (r.0, r.1 as int) == classify(chars@, i as int, k as int),
        k + 2 <= r.1 <= chars.len(),
{
    let n = chars.len();
    let c = chars[i];
    if c == '#' {
        (TokenKind::Block(false), k + 2)
    } else if c == '^' {
        if check_close_pad(chars, i + 1, k) {
            (TokenKind::Else, k + 2)
        } else {
            (TokenKind::Block(true), k + 2)
        }
    } else if c == '/' {
        (TokenKind::End, k + 2)
    } else if c == '>' {
        (TokenKind::Partial, k + 2)
    } else if c == '!' {
        (TokenKind::Comment, k + 2)
    } else if c == '&' {
        (TokenKind::NoEscape, k + 2)
    } else if c == '{' {
        if is_char_at(chars, k, 2, '}') {
            (TokenKind::NoEscape, k + 3)
        } else {
            (TokenKind::Simple, k + 2)
        }
    } else if check_else_payload(chars, i, k) {
        (TokenKind::Else, k + 2)
    } else {
        (TokenKind::Simple, k + 2)
    }
}

fn scan_expression(chars: &Vec<char>, q: usize) -> (r: Option<(TokenKind, usize)>)
    requires
        q + 2 <= chars.len(),
    ensures
        match r {
            Some((kind, close)) => expression_at(chars@, q as int) == Some((kind, close as int))
                && q + 2 < close <= chars.len(),
            None => expression_at(chars@, q as int) is None,
        },
{
    let n = chars.len();
    let a = q + 2;
    if is_char_at(chars, a, 0, '~') && 1 < n - a {
        if let Some(k) = scan_close(chars, a + 2) {
            return Some(classify_at(chars, a + 1, k));
        }
    }
    if a < chars.len() {
        match scan_close(chars, a + 1) {
            Some(k) => Some(classify_at(chars, a, k)),
            None => None,
        }
    } else {
        None
    }
}

/// The flavour of the expression that `s` is, whitespace around it included;
/// `None` where it is no complete expression.
pub open spec fn flavour_of(s: Seq<char>) -> Option<TokenKind> {
    let q = run_end(s, 0, CharClass::Space);
    if char_at(s, q, '{') && char_at(s, q + 1, '{') {
        match expression_at(s, q) {
            Some((kind, _)) => Some(kind),
            None => None,
        }
    } else {
        None
    }
}

/// The flavour of the expression that `chars` are.
pub fn flavour(chars: &Vec<char>) -> (r: Option<TokenKind>)
    ensures
        r == flavour_of(chars@),
{
    let q = scan_run(chars, 0, CharClass::Space);
    if is_char_at(chars, q, 0, '{') && is_char_at(chars, q, 1, '{') {
        match scan_expression(chars, q) {
            Some((kind, _)) => Some(kind),
            None => None,
        }
    } else {
        None
    }
}

fn scan_escape(chars: &Vec<char>, p: usize) -> (r: (String, usize))
    requires
        p < chars.len(),
    ensures
        (r.0@, r.1 as int) == escape_at(chars@, p as int),
        p < r.1 <= chars.len(),
{
    let n = chars.len();
    if is_char_at(chars, p, 1, '{') {
        let mut text = String::new();
        text.push('{');
        (text, p + 2)
    } else if is_char_at(chars, p, 1, '\\') {
        if 2 < chars.len() - p && chars[p + 2] != '{' && chars[p + 2] != '\\' && chars[p + 2]
            != '\r' && chars[p + 2] != '\n' {
            (string_of(chars, p, p + 3), p + 3)
        } else {
            let mut text = String::new();
            text.push('\\');
            (text, p + 2)
        }
    } else if 1 < chars.len() - p && chars[p + 1] != '\r' && chars[p + 1] != '\n' {
        (string_of(chars, p, p + 2), p + 2)
    } else {
        let mut text = String::new();
        text.push('\\');
        (text, p + 1)
    }
}

/// Reads the token that starts at `p`.
fn read_token(chars: &Vec<char>, p: usize) -> (r: Option<(Token, usize)>)
    requires
        p < chars.len(),
    ensures
        match r {
            Some((t, e)) => next_token(chars@, p as int) == Some((t@, e as int)) && p < e
                <= chars.len(),
            None => next_token(chars@, p as int) is None,
        },
{
    let n = chars.len();
    let q = scan_run(chars, p, CharClass::Space);
    if is_char_at(chars, q, 0, '{') && is_char_at(chars, q, 1, '{') && scan_ws(chars, p) == q {
        match scan_expression(chars, q) {
            Some((kind, close)) => {
                let e = scan_ws(chars, close);
                Some((Token::expression(kind, string_of(chars, p, e)), e))
            },
            None => if q > p {
                Some((Token::TokRaw(string_of(chars, p, q)), q))
            } else {
                None
            },
        }
    } else {
        let r = scan_plain(chars, q);
        if r > p {
            Some((Token::TokRaw(string_of(chars, p, r)), r))
        } else if chars[p] == '\\' {
            let (text, e) = scan_escape(chars, p);
            Some((Token::TokRaw(text), e))
        } else {
            Some((Token::TokRaw(string_of(chars, p, p + 1)), p + 1))
        }
    }
}

/// The tokens of `s` from `p` on, behind those of `acc`; on failure the position
/// at which no token starts.
pub open spec fn tokens_from(s: Seq<char>, p: int, acc: Seq<TokenView>) -> Result<Seq<TokenView>, int>
    decreases s.len() - p,
{
    if p < 0 || p >= s.len() {
        Ok(acc)
    } else {
        match next_token(s, p) {
            Some((t, e)) => if p < e <= s.len() {
                tokens_from(s, e, acc.push(t))
            } else {
                Err(p)
            },
            None => Err(p),
        }
    }
}

/// The tokens of a whole template.
pub open spec fn template_tokens(s: Seq<char>) -> Result<Seq<TokenView>, int> {
    tokens_from(s, 0, Seq::empty())
}

/// Splits a template into its tokens. Fails with the position at which two opening
/// braces start no complete expression.
pub fn lex_template(chars: &Vec<char>) -> (r: Result<Vec<Token>, usize>)
    ensures
        match r {
            Ok(tokens) => template_tokens(chars@) == Ok::<Seq<TokenView>, int>(token_views(tokens@)),
            Err(p) => template_tokens(chars@) == Err::<Seq<TokenView>, int>(p as int) && p
                < chars.len(),
        },
{
    let mut tokens: Vec<Token> = Vec::new();
    let mut p: usize = 0;
    assert(token_views(tokens@) =~= Seq::empty());
    while p < chars.len()
        invariant
            p <= chars.len(),
            template_tokens(chars@) == tokens_from(chars@, p as int, token_views(tokens@)),
        decreases chars.len() - p,
    {
        match read_token(chars, p) {
            Some((t, e)) => {
                proof {
                    assert(token_views(tokens@).push(t@) =~= token_views(tokens@.push(t)));
                }
                tokens.push(t);
                p = e;
            },
            None => {
                return Err(p);
            },
        }
    }
    Ok(tokens)
}

/// The text that a token carries.
pub open spec fn token_text(t: TokenView) -> Seq<char> {
    match t {
        TokenView::Exp(_, text) => text,
        TokenView::Raw(text) => text,
    }
}

/// The texts of the first `n` tokens, joined.
pub open spec fn joined_texts(tokens: Seq<TokenView>, n: int) -> Seq<char>
    decreases n,
{
    if n <= 0 || n > tokens.len() {
        Seq::empty()
    } else {
        joined_texts(tokens, n - 1) + token_text(tokens[n - 1])
    }
}

/// The tokens from `p` on, behind tokens that carry the source up to `p`, carry
/// the whole source, where it holds no backslash.
pub(crate) proof fn lemma_tokens_cover_source(s: Seq<char>, p: int, acc: Seq<TokenView>)
    requires
        0 <= p <= s.len(),
        forall|i: int| 0 <= i < s.len() ==> #[trigger] s[i] != '\\',
        joined_texts(acc, acc.len() as int) == s.subrange(0, p),
    ensures
        match tokens_from(s, p, acc) {
            Ok(tokens) => joined_texts(tokens, tokens.len() as int) == s,
            Err(_) => true,
        },
    decreases s.len() - p,
{
    if p >= s.len() {
        assert(s.subrange(0, p) =~= s);
    } else {
        match next_token(s, p) {
            Some((t, e)) => {
                if p < e <= s.len() {
                    assert(token_text(t) == s.subrange(p, e));
                    let next = acc.push(t);
                    assert(joined_texts(next, next.len() - 1) == joined_texts(
                        acc,
                        acc.len() as int,
                    )) by {
                        lemma_joined_prefix(acc, t, acc.len() as int);
                    }
                    assert(s.subrange(0, p) + s.subrange(p, e) =~= s.subrange(0, e));
                    lemma_tokens_cover_source(s, e, next);
                }
            },
            None => {},
        }
    }
}

/// Lexing loses nothing: the tokens of a whole source without backslashes carry,
/// one behind the other, the source.
pub proof fn lemma_template_tokens_cover_source(s: Seq<char>)
    requires
        forall|i: int| 0 <= i < s.len() ==> #[trigger] s[i] != '\\',
    ensures
        match template_tokens(s) {
            Ok(tokens) => joined_texts(tokens, tokens.len() as int) == s,
            Err(_) => true,
        },
{
    assert(s.subrange(0, 0) =~= Seq::<char>::empty());
    lemma_tokens_cover_source(s, 0, Seq::empty());
}

/// One more token leaves the joined texts of the tokens before it as they are.
proof fn lemma_joined_prefix(acc: Seq<TokenView>, t: TokenView, n: int)
    requires
        0 <= n <= acc.len(),
    ensures
        joined_texts(acc.push(t), n) == joined_texts(acc, n),
    decreases n,
{
    if n > 0 {
        lemma_joined_prefix(acc, t, n - 1);
        assert(acc.push(t)[n - 1] == acc[n - 1]);
    }
}

} // verus!

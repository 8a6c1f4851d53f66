//! Character-level lexer: text in, ordered token sequence out.
//!
//! The lexer walks the input once, keeping an escape state, a quote state
//! and one pending (not-yet-flushed) token. A backslash makes the next
//! character literal, whatever it is; a quote character opens a quoted
//! token that runs to the matching delimiter; outside quotes, whitespace
//! separates tokens and `, ( ) ;` are emitted as one-character punctuation
//! tokens. The lexer classifies only; it does no grammar validation.

use vstd::prelude::*;

verus! {

/// One classified lexical unit: a bare word, a quoted run of text together
/// with its delimiter character, or a single punctuation mark. Quoted text
/// excludes its delimiter characters, and word tokens are never empty.
///
/// Equality compares only the textual payload, not the category tag, so an
/// expected output can be written as a bare word whatever its quoting or
/// punctuation category.
#[derive(Debug)]
pub enum Token {
    Word(String),
    Quoted(String, char),
    Comma,
    LeftParen,
    RightParen,
    Semicolon,
}

/// Mathematical model of a [`Token`]: the same shape with each text as a
/// sequence of characters.
pub enum TokenView {
    Word(Seq<char>),
    Quoted(Seq<char>, char),
    Comma,
    LeftParen,
    RightParen,
    Semicolon,
}

impl View for Token {
    type V = TokenView;

    open spec fn view(&self) -> TokenView {
        match self {
            Token::Word(s) => TokenView::Word(s@),
            Token::Quoted(s, d) => TokenView::Quoted(s@, *d),
            Token::Comma => TokenView::Comma,
            Token::LeftParen => TokenView::LeftParen,
            Token::RightParen => TokenView::RightParen,
            Token::Semicolon => TokenView::Semicolon,
        }
    }
}

impl TokenView {
    /// The textual payload of a token: the text of a word or quoted token
    /// (without delimiters), or the punctuation character itself.
    pub open spec fn payload(self) -> Seq<char> {
        match self {
            TokenView::Word(s) => s,
            TokenView::Quoted(s, _) => s,
            TokenView::Comma => seq![','],
            TokenView::LeftParen => seq!['('],
            TokenView::RightParen => seq![')'],
            TokenView::Semicolon => seq![';'],
        }
    }

    /// The canonical text rendering of a token: a word is its text, a
    /// quoted token is its text between its delimiters, and punctuation is
    /// the punctuation mark itself.
    pub open spec fn rendered(self) -> Seq<char> {
        match self {
            TokenView::Word(s) => s,
            TokenView::Quoted(s, d) => seq![d] + s + seq![d],
            TokenView::Comma => seq![','],
            TokenView::LeftParen => seq!['('],
            TokenView::RightParen => seq![')'],
            TokenView::Semicolon => seq![';'],
        }
    }
}

/// The canonical text rendering of a token sequence: the tokens' renderings
/// joined by single spaces.
pub open spec fn rendered_all(ts: Seq<TokenView>) -> Seq<char>
    decreases ts.len(),
{
    if ts.len() == 0 {
        seq![]
    } else if ts.len() == 1 {
        ts[0].rendered()
    } else {
        rendered_all(ts.drop_last()) + seq![' '] + ts.last().rendered()
    }
}

/// The views of a sequence of tokens.
pub open spec fn token_views(ts: Seq<Token>) -> Seq<TokenView> {
    ts.map_values(|t: Token| t@)
}

impl Token {
    /// The token's textual payload: its text for a word or quoted token,
    /// or the punctuation mark itself.
    pub fn get_str<'a>(&'a self) -> (r: &'a str)
        ensures
            r@ == self@.payload(),
    {
        match self {
            Token::Word(s) => s.as_str(),
            Token::Quoted(s, _) => s.as_str(),
            Token::Comma => {
                let r = ",";
                proof {
                    reveal_strlit(",");
                    assert(r@ =~= seq![',']);
                }
                r
            },
            Token::LeftParen => {
                let r = "(";
                proof {
                    reveal_strlit("(");
                    assert(r@ =~= seq!['(']);
                }
                r
            },
            Token::RightParen => {
                let r = ")";
                proof {
                    reveal_strlit(")");
                    assert(r@ =~= seq![')']);
                }
                r
            },
            Token::Semicolon => {
                let r = ";";
                proof {
                    reveal_strlit(";");
                    assert(r@ =~= seq![';']);
                }
                r
            },
        }
    }

    /// Length of the token's textual payload in characters; punctuation
    /// tokens have length one.
    pub fn len(&self) -> (n: usize)
        ensures
            n == self@.payload().len(),
    {
        self.get_str().unicode_len()
    }

    /// A word token with the given text.
    pub fn from_str(s: &str) -> (t: Token)
        ensures
            t@ == TokenView::Word(s@),
    {
        Token::Word(String::from_str(s))
    }

    /// Word tokens for each of the given texts, in order.
    pub fn from_str_vec(str_vec: Vec<&str>) -> (ts: Vec<Token>)
        ensures
            ts@.len() == str_vec@.len(),
            forall|i: int| 0 <= i < ts@.len() ==> ts@[i]@ == TokenView::Word(str_vec@[i]@),
    {
        let mut token_vec: Vec<Token> = Vec::new();
        let mut i: usize = 0;
        while i < str_vec.len()
            invariant
                i <= str_vec@.len(),
                token_vec@.len() == i,
                forall|j: int| 0 <= j < i ==> token_vec@[j]@ == TokenView::Word(str_vec@[j]@),
            decreases str_vec@.len() - i,
        {
            token_vec.push(Token::from_str(str_vec[i]));
            i += 1;
        }
        token_vec
    }

    /// An owned copy of the token with the same view.
    pub fn duplicate(&self) -> (t: Token)
        ensures
            t@ == self@,
    {
        match self {
            Token::Word(s) => Token::Word(s.clone()),
            Token::Quoted(s, d) => Token::Quoted(s.clone(), *d),
            Token::Comma => Token::Comma,
            Token::LeftParen => Token::LeftParen,
            Token::RightParen => Token::RightParen,
            Token::Semicolon => Token::Semicolon,
        }
    }

    /// The canonical text rendering of the token, used for diagnostics: a
    /// word is its text, a quoted token is its text between its
    /// delimiters, and punctuation is the punctuation mark itself.
    pub fn render(&self) -> (r: String)
        ensures
            r@ == self@.rendered(),
    {
        match self {
            Token::Word(s) => s.clone(),
            Token::Quoted(s, d) => {
                let mut out = String::new();
                push_char(&mut out, *d);
                out.append(s.as_str());
                push_char(&mut out, *d);
                proof {
                    assert(out@ =~= self@.rendered());
                }
                out
            },
            _ => String::from_str(self.get_str()),
        }
    }
}

impl PartialEq for Token {
    /// Tokens are equal when their textual payloads are equal; the
    /// category tag is intentionally ignored, so a bare `,` word and a
    /// comma token are indistinguishable by equality.
    fn eq(&self, other: &Token) -> (r: bool) {
        str_eq(self.get_str(), other.get_str())
    }
}

impl vstd::std_specs::cmp::PartialEqSpecImpl for Token {
    open spec fn obeys_eq_spec() -> bool {
        true
    }

    open spec fn eq_spec(&self, other: &Token) -> bool {
        self@.payload() == other@.payload()
    }
}

/// A lexing failure: input ended while an escape or a quote was still open.
#[derive(Debug, PartialEq, Eq, Structural, Clone, Copy)]
pub enum LexError {
    UnmatchedQuote,
    UnmatchedEscape,
}

/// Whitespace for token separation, per Unicode's White_Space property.
pub open spec fn is_space_char(c: char) -> bool {
    ||| c == ' '
    ||| c == '\t'
    ||| c == '\n'
    ||| c == '\r'
    ||| c == '\u{b}'
    ||| c == '\u{c}'
    ||| c == '\u{85}'
    ||| c == '\u{a0}'
    ||| c == '\u{1680}'
    ||| ('\u{2000}' <= c && c <= '\u{200a}')
    ||| c == '\u{2028}'
    ||| c == '\u{2029}'
    ||| c == '\u{202f}'
    ||| c == '\u{205f}'
    ||| c == '\u{3000}'
}

/// The four characters that lex as one-character punctuation tokens.
pub open spec fn is_punct_char(c: char) -> bool {
    c == ',' || c == '(' || c == ')' || c == ';'
}

/// The punctuation token for a punctuation character.
pub open spec fn punct_token(c: char) -> TokenView
    recommends
        is_punct_char(c),
{
    if c == ',' {
        TokenView::Comma
    } else if c == '(' {
        TokenView::LeftParen
    } else if c == ')' {
        TokenView::RightParen
    } else {
        TokenView::Semicolon
    }
}

/// Internal state of the lexer between two characters: whether the last
/// character was an unconsumed backslash, the open quote's delimiter if
/// any, and the text of the pending token. While a quote is open the
/// pending token is quoted with that delimiter; otherwise it is a word.
pub struct LexState {
    pub escaping: bool,
    pub quote: Option<char>,
    pub text: Seq<char>,
}

/// The lexer's starting state: nothing escaped, no quote open, empty
/// pending word.
pub open spec fn lex_init() -> LexState {
    LexState { escaping: false, quote: None, text: seq![] }
}

/// Flushing a pending word: emitted only if it has at least one character.
pub open spec fn emit_word(text: Seq<char>) -> Seq<TokenView> {
    if text.len() > 0 {
        seq![TokenView::Word(text)]
    } else {
        seq![]
    }
}

/// Flushing a pending quoted token: emitted only if it has at least one
/// character, so empty quoted text is silently dropped.
pub open spec fn emit_quoted(text: Seq<char>, d: char) -> Seq<TokenView> {
    if text.len() > 0 {
        seq![TokenView::Quoted(text, d)]
    } else {
        seq![]
    }
}

/// One step of the lexer: the state after consuming one character, and the
/// tokens emitted by that character. In priority order: an escaped
/// character is appended verbatim; a backslash starts an escape; inside a
/// quote the delimiter closes and flushes the pending token and any other
/// character is appended; outside quotes, whitespace flushes the pending
/// token as a separator, a quote character flushes it and opens a quote,
/// punctuation flushes it and emits the punctuation token, and any other
/// character is appended to the pending word.
pub open spec fn lex_step(st: LexState, c: char) -> (LexState, Seq<TokenView>) {
    if st.escaping {
        (LexState { escaping: false, quote: st.quote, text: st.text.push(c) }, seq![])
    } else if c == '\\' {
        (LexState { escaping: true, ..st }, seq![])
    } else {
        match st.quote {
            Some(d) => {
                if c == d {
                    (lex_init(), emit_quoted(st.text, d))
                } else {
                    (LexState { text: st.text.push(c), ..st }, seq![])
                }
            },
            None => {
                if is_space_char(c) {
                    (lex_init(), emit_word(st.text))
                } else if c == '\'' || c == '"' {
                    (LexState { escaping: false, quote: Some(c), text: seq![] }, emit_word(st.text))
                } else if is_punct_char(c) {
                    (lex_init(), emit_word(st.text) + seq![punct_token(c)])
                } else {
                    (LexState { text: st.text.push(c), ..st }, seq![])
                }
            },
        }
    }
}

/// The lexer run over a whole input from a given state: the final state
/// and every token emitted along the way, in order.
pub open spec fn lex_run_from(s: Seq<char>, st: LexState) -> (LexState, Seq<TokenView>)
    decreases s.len(),
{
    if s.len() == 0 {
        (st, seq![])
    } else {
        let (st1, out1) = lex_run_from(s.drop_last(), st);
        let (st2, out2) = lex_step(st1, s.last());
        (st2, out1 + out2)
    }
}

/// The lexer run over a whole input from the starting state.
pub open spec fn lex_run(s: Seq<char>) -> (LexState, Seq<TokenView>) {
    lex_run_from(s, lex_init())
}

/// What lexing an input returns: an unmatched escape or quote left open at
/// end of input is an error; otherwise the emitted tokens, followed by the
/// remaining pending token if it is non-empty.
pub open spec fn lex_spec(s: Seq<char>) -> Result<Seq<TokenView>, LexError> {
    let (st, out) = lex_run(s);
    if st.escaping {
        Err(LexError::UnmatchedEscape)
    } else if st.quote is Some {
        Err(LexError::UnmatchedQuote)
    } else {
        Ok(out + emit_word(st.text))
    }
}

/// Relies on `String::push`: appends the given character to the end of
/// the string.
#[verifier::external_body]
pub(crate) fn push_char(s: &mut String, c: char)
    ensures
        final(s)@ == old(s)@.push(c),
{
    s.push(c);
}

/// Whether a character separates tokens, per Unicode's White_Space
/// property.
pub fn char_is_space(c: char) -> (r: bool)
    ensures
        r == is_space_char(c),
{
    match c {
        ' ' | '\t' | '\n' | '\r' | '\u{b}' | '\u{c}' | '\u{85}' | '\u{a0}' | '\u{1680}'
            | '\u{2028}' | '\u{2029}' | '\u{202f}' | '\u{205f}' | '\u{3000}' => true,
        _ => '\u{2000}' <= c && c <= '\u{200a}',
    }
}

/// Character-for-character string equality.
pub fn str_eq(a: &str, b: &str) -> (r: bool)
    ensures
        r == (a@ == b@),
{
    let n = a.unicode_len();
    if n != b.unicode_len() {
        return false;
    }
    let mut i: usize = 0;
    while i < n
        invariant
            i <= n,
            n == a@.len(),
            n == b@.len(),
            forall|j: int| 0 <= j < i ==> a@[j] == b@[j],
        decreases n - i,
    {
        if a.get_char(i) != b.get_char(i) {
            return false;
        }
        i += 1;
    }
    proof {
        assert(a@ =~= b@);
    }
    true
}

/// Appends the pending word to the output if it has at least one
/// character; a zero-length flush is silently dropped.
fn flush_word(tokens: &mut Vec<Token>, text: String)
    ensures
        token_views(final(tokens)@) == token_views(old(tokens)@) + emit_word(text@),
{
    let ghost old_views = token_views(tokens@);
    if !text.as_str().is_empty() {
        let ghost t = text@;
        tokens.push(Token::Word(text));
        proof {
            assert(token_views(tokens@) =~= old_views + emit_word(t));
        }
    } else {
        proof {
            assert(token_views(tokens@) =~= old_views + emit_word(text@));
        }
    }
}

/// Appends the pending quoted token to the output if it has at least one
/// character; empty quoted text is silently dropped.
fn flush_quoted(tokens: &mut Vec<Token>, text: String, d: char)
    ensures
        token_views(final(tokens)@) == token_views(old(tokens)@) + emit_quoted(text@, d),
{
    let ghost old_views = token_views(tokens@);
    if !text.as_str().is_empty() {
        let ghost t = text@;
        tokens.push(Token::Quoted(text, d));
        proof {
            assert(token_views(tokens@) =~= old_views + emit_quoted(t, d));
        }
    } else {
        proof {
            assert(token_views(tokens@) =~= old_views + emit_quoted(text@, d));
        }
    }
}

/// Appends a one-character punctuation token to the output.
fn emit_punct(tokens: &mut Vec<Token>, c: char)
    requires
        is_punct_char(c),
    ensures
        token_views(final(tokens)@) == token_views(old(tokens)@) + seq![punct_token(c)],
{
    let ghost old_views = token_views(tokens@);
    let t = if c == ',' {
        Token::Comma
    } else if c == '(' {
        Token::LeftParen
    } else if c == ')' {
        Token::RightParen
    } else {
        Token::Semicolon
    };
    tokens.push(t);
    proof {
        assert(token_views(tokens@) =~= old_views + seq![punct_token(c)]);
    }
}

/// Converts one statement's text into its token sequence, or reports the
/// escape or quote left open at end of input. The result is exactly what
/// [`lex_spec`] assigns to the input; the lexer does no grammar
/// validation.
pub fn lex_statement(input: &str) -> (r: Result<Vec<Token>, LexError>)
    ensures
        match r {
            Ok(tokens) => lex_spec(input@) == Ok::<Seq<TokenView>, LexError>(token_views(tokens@)),
            Err(e) => lex_spec(input@) == Err::<Seq<TokenView>, LexError>(e),
        },
{
    let n = input.unicode_len();
    let mut tokens: Vec<Token> = Vec::new();
    let mut text = String::new();
    let mut escaping = false;
    let mut quote: Option<char> = None;
    let mut i: usize = 0;
    while i < n
        invariant
            i <= n,
            n == input@.len(),
            lex_run(input@.subrange(0, i as int)).0 == (LexState {
                escaping,
                quote,
                text: text@,
            }),
            lex_run(input@.subrange(0, i as int)).1 == token_views(tokens@),
        decreases n - i,
    {
        let ghost prefix = input@.subrange(0, i as int);
        let c = input.get_char(i);
        proof {
            assert(input@.subrange(0, i + 1 as int).drop_last() =~= prefix);
            assert(input@.subrange(0, i + 1 as int).last() == c);
        }
        if escaping {
            escaping = false;
            push_char(&mut text, c);
        } else if c == '\\' {
            escaping = true;
        } else {
            match quote {
                Some(d) => {
                    if c == d {
                        quote = None;
                        flush_quoted(&mut tokens, text, d);
                        text = String::new();
                    } else {
                        push_char(&mut text, c);
                    }
                },
                None => {
                    if char_is_space(c) {
                        flush_word(&mut tokens, text);
                        text = String::new();
                    } else if c == '\'' || c == '"' {
                        flush_word(&mut tokens, text);
                        text = String::new();
                        quote = Some(c);
                    } else if c == ',' || c == '(' || c == ')' || c == ';' {
                        flush_word(&mut tokens, text);
                        text = String::new();
                        emit_punct(&mut tokens, c);
                        proof {
                            assert(lex_run(input@.subrange(0, i + 1 as int)).1 =~= token_views(
                                tokens@,
                            ));
                        }
                    } else {
                        push_char(&mut text, c);
                    }
                },
            }
        }
        proof {
            assert(lex_run(input@.subrange(0, i + 1 as int)).1 =~= token_views(tokens@));
        }
        i += 1;
    }
    proof {
        assert(input@.subrange(0, n as int) =~= input@);
    }
    if escaping {
        return Err(LexError::UnmatchedEscape);
    }
    if quote.is_some() {
        return Err(LexError::UnmatchedQuote);
    }
    flush_word(&mut tokens, text);
    Ok(tokens)
}

/// The canonical text rendering of a token sequence for diagnostics: the
/// tokens' renderings joined by single spaces.
pub fn render_tokens(tokens: &Vec<Token>) -> (r: String)
    ensures
        r@ == rendered_all(token_views(tokens@)),
{
    let mut out = String::new();
    let mut i: usize = 0;
    while i < tokens.len()
        invariant
            i <= tokens@.len(),
            out@ == rendered_all(token_views(tokens@).subrange(0, i as int)),
        decreases tokens@.len() - i,
    {
        let ghost prefix = token_views(tokens@).subrange(0, i as int);
        if i > 0 {
            push_char(&mut out, ' ');
        }
        let piece = tokens[i].render();
        out.append(piece.as_str());
        proof {
            let next = token_views(tokens@).subrange(0, i + 1 as int);
            assert(next.drop_last() =~= prefix);
            assert(next.last() == tokens@[i as int]@);
            if i > 0 {
                assert(out@ =~= rendered_all(next));
            } else {
                assert(next.len() == 1);
                assert(out@ =~= rendered_all(next));
            }
        }
        i += 1;
    }
    proof {
        assert(token_views(tokens@).subrange(0, tokens@.len() as int) =~= token_views(tokens@));
    }
    out
}

} // verus!

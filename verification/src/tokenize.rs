//! Lightweight tokenizer: splits text on whitespace runs with the same
//! escape and quoting semantics as the full lexer, but without punctuation
//! tokens — `, ( ) ;` are ordinary word characters here.
//!
//! It is the right tool when a caller only needs shell-like word
//! splitting; the statement parser works on the full lexer's tokens
//! instead.

use vstd::prelude::*;
use crate::lex::{is_space_char, push_char, char_is_space, str_eq};

verus! {

/// One split-off piece of text, together with the quote delimiter it was
/// enclosed in, if any.
///
/// Equality compares only the text, not the delimiter, so an expected
/// output can be written as a bare word whatever its quoting.
#[derive(Debug)]
pub struct Token {
    pub token: String,
    pub quoted: Option<char>,
}

/// Mathematical model of a [`Token`].
pub struct TokenView {
    pub token: Seq<char>,
    pub quoted: Option<char>,
}

impl View for Token {
    type V = TokenView;

    open spec fn view(&self) -> TokenView {
        TokenView { token: self.token@, quoted: self.quoted }
    }
}

impl Token {
    /// An empty pending token.
    pub fn new() -> (t: Token)
        ensures
            t@.token == Seq::<char>::empty(),
            t@.quoted is None,
    {
        Token { token: String::new(), quoted: None }
    }

    /// An unquoted token with the given text.
    pub fn from_str(s: &str) -> (t: Token)
        ensures
            t@.token == s@,
            t@.quoted is None,
    {
        Token { token: String::from_str(s), quoted: None }
    }

    /// Unquoted tokens for each of the given texts, in order.
    pub fn from_str_vec(str_vec: Vec<&str>) -> (ts: Vec<Token>)
        ensures
            ts@.len() == str_vec@.len(),
            forall|i: int| 0 <= i < ts@.len() ==> ts@[i]@.token == str_vec@[i]@,
            forall|i: int| 0 <= i < ts@.len() ==> ts@[i]@.quoted is None,
    {
        let mut token_vec: Vec<Token> = Vec::new();
        let mut i: usize = 0;
        while i < str_vec.len()
            invariant
                i <= str_vec@.len(),
                token_vec@.len() == i,
                forall|j: int| 0 <= j < i ==> token_vec@[j]@.token == str_vec@[j]@,
                forall|j: int| 0 <= j < i ==> token_vec@[j]@.quoted is None,
            decreases str_vec@.len() - i,
        {
            token_vec.push(Token::from_str(str_vec[i]));
            i += 1;
        }
        token_vec
    }

    /// Appends one character to the token's text.
    pub fn push(&mut self, c: char)
        ensures
            final(self)@.token == old(self)@.token.push(c),
            final(self)@.quoted == old(self)@.quoted,
    {
        push_char(&mut self.token, c);
    }

    /// Length of the token's text in characters.
    pub fn len(&self) -> (n: usize)
        ensures
            n == self@.token.len(),
    {
        self.token.as_str().unicode_len()
    }
}

impl PartialEq for Token {
    /// Tokens are equal when their texts are equal; the recorded quote
    /// delimiter is intentionally ignored.
    fn eq(&self, other: &Token) -> (r: bool) {
        str_eq(self.token.as_str(), other.token.as_str())
    }
}

impl vstd::std_specs::cmp::PartialEqSpecImpl for Token {
    open spec fn obeys_eq_spec() -> bool {
        true
    }

    open spec fn eq_spec(&self, other: &Token) -> bool {
        self@.token == other@.token
    }
}

/// Internal state of the tokenizer between two characters: whether the
/// last character was an unconsumed backslash, the open quote's delimiter
/// if any, and the pending text.
pub struct SplitState {
    pub escaping: bool,
    pub quote: Option<char>,
    pub text: Seq<char>,
}

/// The tokenizer's starting state.
pub open spec fn split_init() -> SplitState {
    SplitState { escaping: false, quote: None, text: seq![] }
}

/// Flushing a pending token: emitted only if it has at least one
/// character, carrying the delimiter it was enclosed in, if any.
pub open spec fn emit_piece(text: Seq<char>, quoted: Option<char>) -> Seq<TokenView> {
    if text.len() > 0 {
        seq![TokenView { token: text, quoted }]
    } else {
        seq![]
    }
}

/// One step of the tokenizer: an escaped character is appended verbatim; a
/// backslash starts an escape; inside a quote the delimiter closes and
/// flushes the pending token and any other character is appended; outside
/// quotes, whitespace flushes the pending token and a quote character
/// flushes it and opens a quote; anything else is appended.
pub open spec fn split_step(st: SplitState, c: char) -> (SplitState, Seq<TokenView>) {
    if st.escaping {
        (SplitState { escaping: false, quote: st.quote, text: st.text.push(c) }, seq![])
    } else if c == '\\' {
        (SplitState { escaping: true, ..st }, seq![])
    } else {
        match st.quote {
            Some(d) => {
                if c == d {
                    (split_init(), emit_piece(st.text, Some(d)))
                } else {
                    (SplitState { text: st.text.push(c), ..st }, seq![])
                }
            },
            None => {
                if is_space_char(c) {
                    (split_init(), emit_piece(st.text, None))
                } else if c == '\'' || c == '"' {
                    (
                        SplitState { escaping: false, quote: Some(c), text: seq![] },
                        emit_piece(st.text, None),
                    )
                } else {
                    (SplitState { text: st.text.push(c), ..st }, seq![])
                }
            },
        }
    }
}

/// The tokenizer run over a whole input from a given state: the final
/// state and every token emitted along the way, in order.
pub open spec fn split_run_from(s: Seq<char>, st: SplitState) -> (SplitState, Seq<TokenView>)
    decreases s.len(),
{
    if s.len() == 0 {
        (st, seq![])
    } else {
        let (st1, out1) = split_run_from(s.drop_last(), st);
        let (st2, out2) = split_step(st1, s.last());
        (st2, out1 + out2)
    }
}

/// What tokenizing an input returns: `None` for an escape or quote left
/// open at end of input; otherwise the emitted tokens followed by the
/// remaining pending token if it is non-empty.
pub open spec fn split_spec(s: Seq<char>) -> Option<Seq<TokenView>> {
    let (st, out) = split_run_from(s, split_init());
    if st.escaping {
        None
    } else if st.quote is Some {
        None
    } else {
        Some(out + emit_piece(st.text, None))
    }
}

/// The views of a sequence of tokens.
pub open spec fn piece_views(ts: Seq<Token>) -> Seq<TokenView> {
    ts.map_values(|t: Token| t@)
}

/// Appends the pending token to the output if it has at least one
/// character; a zero-length flush is silently dropped.
fn flush_piece(tokens: &mut Vec<Token>, text: String, quoted: Option<char>)
    ensures
        piece_views(final(tokens)@) == piece_views(old(tokens)@) + emit_piece(text@, quoted),
{
    let ghost old_views = piece_views(tokens@);
    if !text.as_str().is_empty() {
        let ghost t = text@;
        tokens.push(Token { token: text, quoted });
        proof {
            assert(piece_views(tokens@) =~= old_views + emit_piece(t, quoted));
        }
    } else {
        proof {
            assert(piece_views(tokens@) =~= old_views + emit_piece(text@, quoted));
        }
    }
}

/// Splits one statement's text on whitespace runs, honouring escapes and
/// quotes, or returns `None` for an escape or quote left open at end of
/// input. The result is exactly what [`split_spec`] assigns to the input.
pub fn lex_statement(input: &str) -> (r: Option<Vec<Token>>)
    ensures
        match r {
            Some(tokens) => split_spec(input@) == Some(piece_views(tokens@)),
            None => split_spec(input@) is None,
        },
{
    let n = input.unicode_len();
    let mut tokens: Vec<Token> = Vec::new();
    let mut text = String::new();
    let mut escaping = false;
    let mut quote: Option<char> = None;
    let mut i: usize = 0;
    while i < n
        invariant
            i <= n,
            n == input@.len(),
            split_run_from(input@.subrange(0, i as int), split_init()).0 == (SplitState {
                escaping,
                quote,
                text: text@,
            }),
            split_run_from(input@.subrange(0, i as int), split_init()).1 == piece_views(tokens@),
        decreases n - i,
    {
        let ghost prefix = input@.subrange(0, i as int);
        let c = input.get_char(i);
        proof {
            assert(input@.subrange(0, i + 1 as int).drop_last() =~= prefix);
            assert(input@.subrange(0, i + 1 as int).last() == c);
        }
        if escaping {
            escaping = false;
            push_char(&mut text, c);
        } else if c == '\\' {
            escaping = true;
        } else {
            match quote {
                Some(d) => {
                    if c == d {
                        quote = None;
                        flush_piece(&mut tokens, text, Some(d));
                        text = String::new();
                    } else {
                        push_char(&mut text, c);
                    }
                },
                None => {
                    if char_is_space(c) {
                        flush_piece(&mut tokens, text, None);
                        text = String::new();
                    } else if c == '\'' || c == '"' {
                        flush_piece(&mut tokens, text, None);
                        text = String::new();
                        quote = Some(c);
                    } else {
                        push_char(&mut text, c);
                    }
                },
            }
        }
        i += 1;
    }
    proof {
        assert(input@.subrange(0, n as int) =~= input@);
    }
    if escaping {
        return None;
    }
    if quote.is_some() {
        return None;
    }
    flush_piece(&mut tokens, text, None);
    Some(tokens)
}

} // verus!

//! Proved properties of the lexer and the parser: whitespace-only
//! separation, the priority of escapes over quoting and punctuation,
//! unmatched-quote detection, the stability of re-lexing a canonical
//! rendering, non-emptiness of produced tokens, parser determinism, and
//! the placement of join markers in parsed table lists.

use vstd::prelude::*;
use crate::lex::{
    emit_quoted, emit_word, is_punct_char, is_space_char, lex_init, lex_run, lex_run_from,
    lex_spec, lex_step, punct_token, rendered_all, LexError, LexState, TokenView,
};
use crate::parse::{
    parse_spec, parser_init, parser_run, parser_step, select_step, ParseErrorModel, ParseState,
    ParserModel, SelectAcc, SelectModel, StatementModel, TableModel,
};

verus! {

/// A character with no lexical role: not whitespace, not a backslash, not
/// a quote character and not punctuation.
pub open spec fn plain_char(c: char) -> bool {
    !is_space_char(c) && c != '\\' && c != '\'' && c != '"' && !is_punct_char(c)
}

/// An input made of plain characters and whitespace only.
pub open spec fn plain_or_space(s: Seq<char>) -> bool {
    forall|i: int| 0 <= i < s.len() ==> plain_char(s[i]) || is_space_char(s[i])
}

/// Running the lexer over a concatenation is running it over the parts in
/// turn, emissions appended.
pub proof fn lemma_lex_run_from_concat(s: Seq<char>, t: Seq<char>, st: LexState)
    ensures
        ({
            let (st1, out1) = lex_run_from(s, st);
            let (st2, out2) = lex_run_from(t, st1);
            lex_run_from(s + t, st) == (st2, out1 + out2)
        }),
    decreases t.len(),
{
    let (st1, out1) = lex_run_from(s, st);
    if t.len() == 0 {
        assert(s + t =~= s);
        assert(out1 + seq![] =~= out1);
    } else {
        lemma_lex_run_from_concat(s, t.drop_last(), st);
        let (stm, outm) = lex_run_from(t.drop_last(), st1);
        let (st2, out2) = lex_step(stm, t.last());
        assert((s + t).drop_last() =~= s + t.drop_last());
        assert((s + t).last() == t.last());
        assert(out1 + (outm + out2) =~= (out1 + outm) + out2);
    }
}

/// A non-empty pending word becomes one word token; an empty one is
/// dropped.
pub open spec fn word_emit(p: Seq<char>) -> Seq<Seq<char>> {
    if p.len() > 0 {
        seq![p]
    } else {
        seq![]
    }
}

/// Splitting on whitespace runs alone: the pending word and the words
/// split off so far.
pub open spec fn ws_run(s: Seq<char>) -> (Seq<char>, Seq<Seq<char>>)
    decreases s.len(),
{
    if s.len() == 0 {
        (seq![], seq![])
    } else {
        let (pending, words) = ws_run(s.drop_last());
        if is_space_char(s.last()) {
            (seq![], words + word_emit(pending))
        } else {
            (pending.push(s.last()), words)
        }
    }
}

/// The maximal whitespace-free runs of an input, in order; leading and
/// trailing whitespace contribute nothing.
pub open spec fn ws_split(s: Seq<char>) -> Seq<Seq<char>> {
    let (pending, words) = ws_run(s);
    words + word_emit(pending)
}

/// On an input of plain characters and whitespace, the lexer is exactly
/// the whitespace splitter: no escape or quote ever opens, the pending
/// word is the pending run, and the emitted tokens are the runs split off
/// so far, all whitespace-free and non-empty.
proof fn lemma_lex_run_plain_or_space(s: Seq<char>)
    requires
        plain_or_space(s),
    ensures
        ({
            let (pending, words) = ws_run(s);
            &&& lex_run(s).0 == LexState { escaping: false, quote: None, text: pending }
            &&& lex_run(s).1 == words.map_values(|w: Seq<char>| TokenView::Word(w))
            &&& forall|i: int| 0 <= i < pending.len() ==> plain_char(pending[i])
            &&& forall|k: int|
                0 <= k < words.len() ==> words[k].len() > 0 && (forall|i: int|
                    0 <= i < words[k].len() ==> plain_char(words[k][i]))
        }),
    decreases s.len(),
{
    let map_word = |w: Seq<char>| TokenView::Word(w);
    if s.len() == 0 {
        assert(ws_run(s).1.map_values(map_word) =~= Seq::<TokenView>::empty());
    } else {
        assert(plain_or_space(s.drop_last())) by {
            assert(forall|i: int|
                0 <= i < s.drop_last().len() ==> s.drop_last()[i] == s[i]);
        }
        lemma_lex_run_plain_or_space(s.drop_last());
        let (pending, words) = ws_run(s.drop_last());
        let c = s.last();
        assert(plain_char(c) || is_space_char(c));
        if is_space_char(c) {
            assert((words + word_emit(pending)).map_values(map_word) =~= words.map_values(map_word)
                + emit_word(pending));
        } else {
            assert(words.map_values(map_word) =~= lex_run(s).1);
        }
    }
}

/// Whitespace-only separation: with no quotes, escapes or punctuation in
/// the input, lexing splits on whitespace runs, dropping leading and
/// trailing whitespace and preserving order; every resulting token is a
/// non-empty whitespace-free word.
pub proof fn lemma_whitespace_separation(s: Seq<char>)
    requires
        plain_or_space(s),
    ensures
        lex_spec(s) == Ok::<Seq<TokenView>, LexError>(
            ws_split(s).map_values(|w: Seq<char>| TokenView::Word(w)),
        ),
        forall|k: int|
            0 <= k < ws_split(s).len() ==> ws_split(s)[k].len() > 0 && (forall|i: int|
                0 <= i < ws_split(s)[k].len() ==> !is_space_char(ws_split(s)[k][i])),
{
    lemma_lex_run_plain_or_space(s);
    let map_word = |w: Seq<char>| TokenView::Word(w);
    let (pending, words) = ws_run(s);
    assert(words.map_values(map_word) + emit_word(pending) =~= (words + word_emit(
        pending,
    )).map_values(map_word));
}

/// Quote/escape priority: after any input that does not end in an open
/// escape, a backslash followed by any character — a quote, punctuation,
/// a backslash or whitespace included — appends that character literally
/// to the pending token, emits nothing, and leaves the quote state as it
/// was.
pub proof fn lemma_escape_literal(s: Seq<char>, c: char)
    requires
        !lex_run(s).0.escaping,
    ensures
        ({
            let (st, out) = lex_run(s);
            lex_run(s + seq!['\\', c]) == (
                LexState { escaping: false, quote: st.quote, text: st.text.push(c) },
                out,
            )
        }),
{
    let (st, out) = lex_run(s);
    lemma_lex_run_from_concat(s, seq!['\\', c], lex_init());
    let two = seq!['\\', c];
    assert(two.drop_last() =~= seq!['\\']);
    assert(seq!['\\'].drop_last() =~= Seq::<char>::empty());
    assert(lex_run_from(Seq::<char>::empty(), st) == (st, Seq::<TokenView>::empty()));
    assert(lex_run_from(seq!['\\'], st) == (LexState { escaping: true, ..st }, Seq::<
        TokenView,
    >::empty()));
    assert(out + (seq![] + seq![]) =~= out);
}

/// Unmatched-quote detection: any input left inside an open quote at end
/// of input fails with `UnmatchedQuote` — unless the very last character
/// is an unconsumed backslash, which the end-of-input check reports first
/// as `UnmatchedEscape`.
pub proof fn lemma_unmatched_quote(s: Seq<char>)
    requires
        lex_run(s).0.quote is Some,
        !lex_run(s).0.escaping,
    ensures
        lex_spec(s) == Err::<Seq<TokenView>, LexError>(LexError::UnmatchedQuote),
{
}

/// A word or quoted token with at least one character of text;
/// punctuation counts as non-empty.
pub open spec fn token_nonempty(t: TokenView) -> bool {
    match t {
        TokenView::Word(s) => s.len() > 0,
        TokenView::Quoted(s, _) => s.len() > 0,
        _ => true,
    }
}

/// Every token one lexer step emits is non-empty: zero-length flushes are
/// silently dropped.
proof fn lemma_lex_step_emits_nonempty(st: LexState, c: char)
    ensures
        forall|k: int|
            0 <= k < lex_step(st, c).1.len() ==> token_nonempty(
                #[trigger] lex_step(st, c).1[k],
            ),
{
    let out = lex_step(st, c).1;
    assert forall|k: int| 0 <= k < out.len() implies token_nonempty(out[k]) by {
        if !st.escaping && c != '\\' {
            match st.quote {
                Some(d) => {
                    if c == d {
                        assert(out == emit_quoted(st.text, d));
                    }
                },
                None => {
                    if is_space_char(c) || c == '\'' || c == '"' {
                        assert(out == emit_word(st.text));
                    } else if is_punct_char(c) {
                        assert(out == emit_word(st.text) + seq![punct_token(c)]);
                    }
                },
            }
        }
    }
}

/// Every token the lexer run emits is non-empty.
proof fn lemma_lex_run_emits_nonempty(s: Seq<char>)
    ensures
        forall|k: int|
            0 <= k < lex_run(s).1.len() ==> token_nonempty(#[trigger] lex_run(s).1[k]),
    decreases s.len(),
{
    if s.len() > 0 {
        lemma_lex_run_emits_nonempty(s.drop_last());
        let (st, out) = lex_run(s.drop_last());
        let (st2, out2) = lex_step(st, s.last());
        lemma_lex_step_emits_nonempty(st, s.last());
        assert(forall|k: int|
            0 <= k < (out + out2).len() ==> token_nonempty(#[trigger] (out + out2)[k]));
    }
}

/// Word and quoted tokens produced by lexing are never empty.
pub proof fn lemma_lexed_tokens_nonempty(s: Seq<char>, ts: Seq<TokenView>)
    requires
        lex_spec(s) == Ok::<Seq<TokenView>, LexError>(ts),
    ensures
        forall|k: int| 0 <= k < ts.len() ==> token_nonempty(#[trigger] ts[k]),
{
    lemma_lex_run_emits_nonempty(s);
    let (st, out) = lex_run(s);
    assert(forall|k: int| 0 <= k < out.len() ==> ts[k] == out[k]);
}

/// Parser determinism: what parsing returns is a function of the token
/// views alone, so any two results that the statement parser's contract
/// admits for equal token sequences have equal models.
pub proof fn lemma_parse_deterministic(
    ts: Seq<TokenView>,
    r1: Result<StatementModel, ParseErrorModel>,
    r2: Result<StatementModel, ParseErrorModel>,
)
    requires
        r1 == parse_spec(ts),
        r2 == parse_spec(ts),
    ensures
        r1 == r2,
{
}

/// A table list in which every join marker immediately precedes a table
/// name.
pub open spec fn joins_followed_by_names(ts: Seq<TableModel>) -> bool {
    forall|i: int| 0 <= i < ts.len() && (#[trigger] ts[i]) is Join ==> i + 1 < ts.len() && ts[i + 1] is Name
}

/// The table-list invariant the SELECT machine maintains: every join
/// marker but possibly the last is followed by a table name, and a
/// trailing join marker means the machine still awaits that name.
spec fn tables_wf(acc: SelectAcc) -> bool {
    &&& forall|i: int|
        0 <= i < acc.tables.len() - 1 && (#[trigger] acc.tables[i]) is Join ==> acc.tables[i
            + 1] is Name
    &&& (acc.tables.len() > 0 && acc.tables.last() is Join ==> acc.state == ParseState::TablesJoin
        || acc.state == ParseState::TablesValue)
}

/// One step of the SELECT machine preserves the table-list invariant.
proof fn lemma_select_step_preserves_tables_wf(acc: SelectAcc, t: TokenView)
    requires
        tables_wf(acc),
        select_step(acc, t) is Ok,
    ensures
        tables_wf(select_step(acc, t)->Ok_0),
{
    let acc2 = select_step(acc, t)->Ok_0;
    if acc2.tables != acc.tables {
        assert(acc2.tables.len() == acc.tables.len() + 1);
        assert(forall|i: int|
            0 <= i < acc.tables.len() ==> acc2.tables[i] == acc.tables[i]);
    }
}

/// The parser run from a model with a well-formed table list ends in one,
/// when it ends without an error.
proof fn lemma_parser_run_preserves_tables_wf(ts: Seq<TokenView>, m: ParserModel)
    requires
        tables_wf(m.acc),
        parser_run(ts, m) is Ok,
    ensures
        tables_wf(parser_run(ts, m)->Ok_0.acc),
    decreases ts.len(),
{
    if ts.len() > 0 {
        let m2 = parser_step(m, ts.first())->Ok_0;
        if m.started {
            lemma_select_step_preserves_tables_wf(m.acc, ts.first());
        }
        lemma_parser_run_preserves_tables_wf(ts.drop_first(), m2);
    }
}

/// A join marker always immediately precedes the table name it governs: in
/// any parsed statement's table list, every join marker is followed by a
/// table name.
pub proof fn lemma_join_marker_governs(ts: Seq<TokenView>, sel: SelectModel)
    requires
        parse_spec(ts) == Ok::<StatementModel, ParseErrorModel>(StatementModel::Select(sel)),
    ensures
        joins_followed_by_names(sel.tables),
{
    lemma_parser_run_preserves_tables_wf(ts, parser_init());
    let m = parser_run(ts, parser_init())->Ok_0;
    assert(m.acc.state == ParseState::End);
    assert(sel.tables == m.acc.tables);
    assert(forall|i: int|
        0 <= i < sel.tables.len() && (#[trigger] sel.tables[i]) is Join ==> i + 1 < sel.tables.len()
            && sel.tables[i + 1] is Name) by {
        if sel.tables.len() > 0 && sel.tables.last() is Join {
            assert(m.acc.state == ParseState::TablesJoin || m.acc.state == ParseState::TablesValue);
        }
    }
}

/// A token sequence whose canonical rendering lexes back to itself: words
/// are non-empty and hold no character with a lexical role, and quoted
/// text is non-empty and holds neither its own delimiter nor a backslash.
/// Every token the lexer emits for an input free of backslashes is of
/// this shape ([`lemma_lexed_tokens_relexable`]); an escape can smuggle a
/// character with a lexical role into a token's text, and such a token's
/// rendering does not lex back to it.
pub open spec fn relexable(t: TokenView) -> bool {
    match t {
        TokenView::Word(w) => w.len() > 0 && (forall|i: int| 0 <= i < w.len() ==> plain_char(w[i])),
        TokenView::Quoted(q, d) => (d == '\'' || d == '"') && q.len() > 0 && (forall|i: int|
            0 <= i < q.len() ==> q[i] != d && q[i] != '\\'),
        _ => true,
    }
}

/// On an input free of backslashes no escape ever opens, every emitted
/// token is relexable, and the pending text holds no character that the
/// current state would give a lexical role.
proof fn lemma_lex_run_emits_relexable(s: Seq<char>)
    requires
        forall|i: int| 0 <= i < s.len() ==> s[i] != '\\',
    ensures
        ({
            let (st, out) = lex_run(s);
            &&& !st.escaping
            &&& forall|k: int| 0 <= k < out.len() ==> relexable(#[trigger] out[k])
            &&& match st.quote {
                None => forall|i: int| 0 <= i < st.text.len() ==> plain_char(st.text[i]),
                Some(d) => (d == '\'' || d == '"') && (forall|i: int|
                    0 <= i < st.text.len() ==> st.text[i] != d && st.text[i] != '\\'),
            }
        }),
    decreases s.len(),
{
    if s.len() > 0 {
        assert(forall|i: int| 0 <= i < s.drop_last().len() ==> s.drop_last()[i] != '\\');
        lemma_lex_run_emits_relexable(s.drop_last());
        let (st, out) = lex_run(s.drop_last());
        let c = s.last();
        let (st2, out2) = lex_step(st, c);
        assert(forall|k: int| 0 <= k < out2.len() ==> relexable(#[trigger] out2[k]));
        assert(forall|k: int|
            0 <= k < (out + out2).len() ==> relexable(#[trigger] (out + out2)[k]));
    }
}

/// Every token produced by lexing an input free of backslashes is
/// relexable, so by [`lemma_relex_stable`] lexing the canonical rendering
/// of such a produced token sequence reproduces it.
pub proof fn lemma_lexed_tokens_relexable(s: Seq<char>, ts: Seq<TokenView>)
    requires
        forall|i: int| 0 <= i < s.len() ==> s[i] != '\\',
        lex_spec(s) == Ok::<Seq<TokenView>, LexError>(ts),
    ensures
        forall|k: int| 0 <= k < ts.len() ==> relexable(#[trigger] ts[k]),
        lex_spec(rendered_all(ts)) == Ok::<Seq<TokenView>, LexError>(ts),
{
    lemma_lex_run_emits_relexable(s);
    let (st, out) = lex_run(s);
    assert(ts == out + emit_word(st.text));
    assert(forall|k: int| 0 <= k < ts.len() ==> relexable(#[trigger] ts[k])) by {
        assert(forall|k: int| 0 <= k < out.len() ==> ts[k] == out[k]);
    }
    lemma_relex_stable(ts);
}

/// Plain characters append to the pending word one by one: no emission, no
/// state change beyond the text.
proof fn lemma_run_plain(w: Seq<char>, st: LexState)
    requires
        !st.escaping,
        st.quote is None,
        forall|i: int| 0 <= i < w.len() ==> plain_char(w[i]),
    ensures
        lex_run_from(w, st) == (
            LexState { escaping: false, quote: None, text: st.text + w },
            Seq::<TokenView>::empty(),
        ),
    decreases w.len(),
{
    if w.len() == 0 {
        assert(st.text + w =~= st.text);
        assert(st == (LexState { escaping: false, quote: None, text: st.text }));
    } else {
        assert(forall|i: int| 0 <= i < w.drop_last().len() ==> plain_char(w.drop_last()[i]));
        lemma_run_plain(w.drop_last(), st);
        assert(plain_char(w.last()));
        assert((st.text + w.drop_last()).push(w.last()) =~= st.text + w);
        assert(seq![] + seq![] =~= Seq::<TokenView>::empty());
    }
}

/// Inside a quote, characters other than the delimiter and the backslash
/// append to the pending quoted text one by one.
proof fn lemma_run_in_quote(q: Seq<char>, d: char, st: LexState)
    requires
        !st.escaping,
        st.quote == Some(d),
        forall|i: int| 0 <= i < q.len() ==> q[i] != d && q[i] != '\\',
    ensures
        lex_run_from(q, st) == (
            LexState { escaping: false, quote: Some(d), text: st.text + q },
            Seq::<TokenView>::empty(),
        ),
    decreases q.len(),
{
    if q.len() == 0 {
        assert(st.text + q =~= st.text);
        assert(st == (LexState { escaping: false, quote: Some(d), text: st.text }));
    } else {
        assert(forall|i: int|
            0 <= i < q.drop_last().len() ==> q.drop_last()[i] != d && q.drop_last()[i] != '\\');
        lemma_run_in_quote(q.drop_last(), d, st);
        assert((st.text + q.drop_last()).push(q.last()) =~= st.text + q);
        assert(seq![] + seq![] =~= Seq::<TokenView>::empty());
    }
}

/// Lexing one relexable token's rendering from the starting state: a word
/// stays pending with nothing emitted; a quoted token or punctuation is
/// emitted whole, leaving the starting state again.
proof fn lemma_relex_one(t: TokenView)
    requires
        relexable(t),
    ensures
        ({
            let (st, out) = lex_run_from(t.rendered(), lex_init());
            match t {
                TokenView::Word(w) => st == (LexState {
                    escaping: false,
                    quote: None,
                    text: w,
                }) && out == Seq::<TokenView>::empty(),
                _ => st == lex_init() && out == seq![t],
            }
        }),
{
    match t {
        TokenView::Word(w) => {
            lemma_run_plain(w, lex_init());
            assert(Seq::<char>::empty() + w =~= w);
        },
        TokenView::Quoted(q, d) => {
            let open = seq![d];
            let inner = open + q;
            assert(open.drop_last() =~= Seq::<char>::empty());
            assert(lex_run_from(Seq::<char>::empty(), lex_init()) == (
                lex_init(),
                Seq::<TokenView>::empty(),
            ));
            let st1 = LexState { escaping: false, quote: Some(d), text: seq![] };
            assert(lex_run_from(open, lex_init()) == (st1, emit_word(seq![])));
            lemma_lex_run_from_concat(open, q, lex_init());
            lemma_run_in_quote(q, d, st1);
            assert(Seq::<char>::empty() + q =~= q);
            assert(t.rendered() =~= inner.push(d));
            assert(t.rendered().drop_last() =~= inner);
            assert(t.rendered().last() == d);
            assert(lex_run_from(inner, lex_init()).0 == (LexState {
                escaping: false,
                quote: Some(d),
                text: q,
            }));
            assert(lex_run_from(t.rendered(), lex_init()).1 =~= seq![t]);
        },
        _ => {
            assert(lex_run_from(Seq::<char>::empty(), lex_init()) == (
                lex_init(),
                Seq::<TokenView>::empty(),
            ));
            assert(t.rendered().drop_last() =~= Seq::<char>::empty());
            assert(is_punct_char(t.rendered().last()));
            assert(punct_token(t.rendered().last()) == t);
            assert(lex_run_from(t.rendered(), lex_init()).1 =~= seq![t]);
        },
    }
}

/// Lexing the canonical rendering of a non-empty relexable token sequence:
/// everything but a trailing word has been emitted in order; a trailing
/// word is still pending.
proof fn lemma_relex_run(ts: Seq<TokenView>)
    requires
        ts.len() > 0,
        forall|i: int| 0 <= i < ts.len() ==> relexable(#[trigger] ts[i]),
    ensures
        ({
            let (st, out) = lex_run(rendered_all(ts));
            match ts.last() {
                TokenView::Word(w) => st == (LexState {
                    escaping: false,
                    quote: None,
                    text: w,
                }) && out == ts.drop_last(),
                _ => st == lex_init() && out == ts,
            }
        }),
    decreases ts.len(),
{
    if ts.len() == 1 {
        lemma_relex_one(ts.last());
        assert(ts[0] == ts.last());
        match ts.last() {
            TokenView::Word(_) => {
                assert(Seq::<TokenView>::empty() =~= ts.drop_last());
            },
            _ => {
                assert(seq![ts.last()] =~= ts);
            },
        }
    } else {
        let dl = ts.drop_last();
        assert(forall|i: int| 0 <= i < dl.len() ==> relexable(#[trigger] dl[i])) by {
            assert(forall|i: int| 0 <= i < dl.len() ==> dl[i] == ts[i]);
        }
        lemma_relex_run(dl);
        let a = rendered_all(dl);
        let space = seq![' '];
        let b = ts.last().rendered();
        assert(rendered_all(ts) == a + space + b);
        lemma_lex_run_from_concat(a, space, lex_init());
        let (st1, out1) = lex_run(a);
        assert(space.drop_last() =~= Seq::<char>::empty());
        assert(space.last() == ' ');
        assert(is_space_char(' '));
        // After the separating space everything of the prefix is emitted
        // and the state is the starting state again.
        assert(lex_run_from(Seq::<char>::empty(), st1) == (st1, Seq::<TokenView>::empty()));
        let (st2, out2) = lex_run_from(space, st1);
        assert(st2 == lex_init() && out1 + out2 =~= dl) by {
            match dl.last() {
                TokenView::Word(w) => {
                    assert(out1 + emit_word(w) =~= dl.drop_last().push(dl.last()));
                    assert(dl.drop_last().push(dl.last()) =~= dl);
                },
                _ => {
                    assert(out1 + emit_word(seq![]) =~= dl);
                },
            }
        }
        lemma_lex_run_from_concat(a + space, b, lex_init());
        lemma_relex_one(ts.last());
        match ts.last() {
            TokenView::Word(w) => {
                assert(dl + Seq::<TokenView>::empty() =~= ts.drop_last());
            },
            _ => {
                assert(dl + seq![ts.last()] =~= ts);
            },
        }
    }
}

/// Re-lex stability: lexing the canonical rendering of a relexable token
/// sequence — the tokens' renderings joined by single spaces — reproduces
/// an equal token sequence.
pub proof fn lemma_relex_stable(ts: Seq<TokenView>)
    requires
        forall|i: int| 0 <= i < ts.len() ==> relexable(#[trigger] ts[i]),
    ensures
        lex_spec(rendered_all(ts)) == Ok::<Seq<TokenView>, LexError>(ts),
{
    if ts.len() == 0 {
        assert(lex_run(rendered_all(ts)).1 + emit_word(seq![]) =~= ts);
    } else {
        lemma_relex_run(ts);
        match ts.last() {
            TokenView::Word(w) => {
                assert(ts.drop_last() + emit_word(w) =~= ts);
            },
            _ => {
                assert(ts + emit_word(seq![]) =~= ts);
            },
        }
    }
}

} // verus!

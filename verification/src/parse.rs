//! Clause-level statement parser: an explicit finite-state machine that
//! consumes a token sequence in order and produces a structured
//! [`Statement`] value, or a parse error naming the offending token and
//! the active state.
//!
//! SELECT syntax is covered in full: column expressions (plain names,
//! quoted names, function calls with arguments), table lists with join
//! variants, USING join-key lists, and statement termination. INSERT,
//! UPDATE and DELETE are recognized as commands but their clause grammars
//! are stubs: parsing them fails at once with
//! [`ParseError::NotImplemented`].

use vstd::prelude::*;
use crate::lex::{str_eq, token_views, Token, TokenView};

verus! {

/// The join variant named by a join marker in a table list.
#[derive(Debug, PartialEq, Eq, Structural, Clone, Copy)]
pub enum JoinKind {
    Left,
    Right,
    Inner,
    Natural,
    Cross,
}

/// One column expression of a SELECT column list.
#[derive(Debug, PartialEq, Eq)]
pub enum ColumnValue {
    PlainName(String),
    QuotedName(String, char),
    FunctionCall(String, Vec<ColumnValue>),
}

/// One entry of a SELECT table list. A join marker always immediately
/// precedes the table name it governs. `NestedQuery` is a placeholder for
/// future subquery support and is never produced.
#[derive(Debug, PartialEq, Eq)]
pub enum TableEntry {
    TableName(String),
    JoinMarker(JoinKind),
    NestedQuery,
}

/// One join key built from the names inside a USING list: a single column
/// name, or a pair of two consecutive names.
#[derive(Debug, PartialEq, Eq)]
pub enum JoinKey {
    SingleColumn(String),
    ColumnPair(String, String),
}

/// The parsed clauses of a SELECT statement. The column and table lists
/// preserve source order.
#[derive(Debug, PartialEq, Eq)]
pub struct SelectStatement {
    pub columns: Vec<ColumnValue>,
    pub tables: Vec<TableEntry>,
    pub join_keys: Vec<JoinKey>,
}

/// Marker payload of the commands whose clause grammars are left as
/// external extensions.
#[derive(Debug, PartialEq, Eq)]
pub struct Unsupported;

/// The structured representation of one SQL command.
#[derive(Debug, PartialEq, Eq)]
pub enum Statement {
    Select(SelectStatement),
    Insert(Unsupported),
    Update(Unsupported),
    Delete(Unsupported),
}

/// A recognized command keyword.
#[derive(Debug, PartialEq, Eq, Structural, Clone, Copy)]
pub enum CommandKind {
    Select,
    Insert,
    Update,
    Delete,
}

/// The parser's states. `Command` awaits the command keyword; the
/// `Columns` states walk the column list and function-call arguments; the
/// `Tables` states walk the table list and join markers; the `Using`
/// states walk a USING join-key list (none, one, or two names seen so
/// far); `End` follows the terminating semicolon.
#[derive(Debug, PartialEq, Eq, Structural, Clone, Copy)]
pub enum ParseState {
    Command,
    ColumnsValue,
    ColumnsNext,
    ColumnsFuncParam,
    ColumnsFuncNext,
    TablesValue,
    TablesNext,
    TablesJoin,
    UsingValue,
    UsingNext,
    UsingDone,
    End,
}

/// A parsing failure. `UnexpectedToken` names the first token that cannot
/// be consumed in the active state, and `UnexpectedEnd` the active state
/// of an input that ran out before the statement was complete: incomplete
/// statements never silently succeed.
#[derive(Debug, PartialEq)]
pub enum ParseError {
    UnknownCommand,
    UnexpectedToken(Token, ParseState),
    UnexpectedEnd(ParseState),
    FunctionOnNonPlainColumn,
    IncompleteUsingPair,
    NotImplemented(CommandKind),
}

/// Mathematical model of a [`ColumnValue`].
pub enum ColumnModel {
    Plain(Seq<char>),
    Quoted(Seq<char>, char),
    Func(Seq<char>, Seq<ColumnModel>),
}

/// Mathematical model of a [`TableEntry`].
pub enum TableModel {
    Name(Seq<char>),
    Join(JoinKind),
    Nested,
}

/// Mathematical model of a [`JoinKey`].
pub enum JoinKeyModel {
    Single(Seq<char>),
    Pair(Seq<char>, Seq<char>),
}

/// Mathematical model of a [`SelectStatement`].
pub struct SelectModel {
    pub columns: Seq<ColumnModel>,
    pub tables: Seq<TableModel>,
    pub join_keys: Seq<JoinKeyModel>,
}

/// Mathematical model of a [`Statement`].
pub enum StatementModel {
    Select(SelectModel),
    Insert,
    Update,
    Delete,
}

/// Mathematical model of a [`ParseError`]: the same shape with the
/// offending token replaced by its view.
pub enum ParseErrorModel {
    UnknownCommand,
    UnexpectedToken(TokenView, ParseState),
    UnexpectedEnd(ParseState),
    FunctionOnNonPlainColumn,
    IncompleteUsingPair,
    NotImplemented(CommandKind),
}

/// Model of one column expression.
pub open spec fn column_model(c: ColumnValue) -> ColumnModel
    decreases c,
{
    match c {
        ColumnValue::PlainName(s) => ColumnModel::Plain(s@),
        ColumnValue::QuotedName(s, d) => ColumnModel::Quoted(s@, d),
        ColumnValue::FunctionCall(name, args) => ColumnModel::Func(name@, columns_model(args@)),
    }
}

/// Models of a column list, in order.
pub open spec fn columns_model(s: Seq<ColumnValue>) -> Seq<ColumnModel>
    decreases s,
{
    if s.len() == 0 {
        seq![]
    } else {
        seq![column_model(s.first())] + columns_model(s.drop_first())
    }
}

/// Model of one table-list entry.
pub open spec fn table_model(t: TableEntry) -> TableModel {
    match t {
        TableEntry::TableName(s) => TableModel::Name(s@),
        TableEntry::JoinMarker(k) => TableModel::Join(k),
        TableEntry::NestedQuery => TableModel::Nested,
    }
}

/// Models of a table list, in order.
pub open spec fn tables_model(s: Seq<TableEntry>) -> Seq<TableModel> {
    s.map_values(|t: TableEntry| table_model(t))
}

/// Model of one join key.
pub open spec fn join_key_model(k: JoinKey) -> JoinKeyModel {
    match k {
        JoinKey::SingleColumn(s) => JoinKeyModel::Single(s@),
        JoinKey::ColumnPair(a, b) => JoinKeyModel::Pair(a@, b@),
    }
}

/// Models of a join-key list, in order.
pub open spec fn join_keys_model(s: Seq<JoinKey>) -> Seq<JoinKeyModel> {
    s.map_values(|k: JoinKey| join_key_model(k))
}

/// Model of a parsed statement.
pub open spec fn statement_model(s: Statement) -> StatementModel {
    match s {
        Statement::Select(sel) => StatementModel::Select(
            SelectModel {
                columns: columns_model(sel.columns@),
                tables: tables_model(sel.tables@),
                join_keys: join_keys_model(sel.join_keys@),
            },
        ),
        Statement::Insert(_) => StatementModel::Insert,
        Statement::Update(_) => StatementModel::Update,
        Statement::Delete(_) => StatementModel::Delete,
    }
}

/// Model of a parse error.
pub open spec fn error_model(e: ParseError) -> ParseErrorModel {
    match e {
        ParseError::UnknownCommand => ParseErrorModel::UnknownCommand,
        ParseError::UnexpectedToken(t, st) => ParseErrorModel::UnexpectedToken(t@, st),
        ParseError::UnexpectedEnd(st) => ParseErrorModel::UnexpectedEnd(st),
        ParseError::FunctionOnNonPlainColumn => ParseErrorModel::FunctionOnNonPlainColumn,
        ParseError::IncompleteUsingPair => ParseErrorModel::IncompleteUsingPair,
        ParseError::NotImplemented(k) => ParseErrorModel::NotImplemented(k),
    }
}

/// The length and elements of a modelled column list, element by element.
pub proof fn lemma_columns_model(s: Seq<ColumnValue>)
    ensures
        columns_model(s).len() == s.len(),
        forall|i: int| 0 <= i < s.len() ==> columns_model(s)[i] == column_model(s[i]),
    decreases s,
{
    if s.len() > 0 {
        lemma_columns_model(s.drop_first());
    }
}

/// Appending a column appends its model.
pub proof fn lemma_columns_model_push(s: Seq<ColumnValue>, c: ColumnValue)
    ensures
        columns_model(s.push(c)) == columns_model(s).push(column_model(c)),
{
    lemma_columns_model(s);
    lemma_columns_model(s.push(c));
    assert(columns_model(s.push(c)) =~= columns_model(s).push(column_model(c)));
}

/// Dropping the last column drops its model.
pub proof fn lemma_columns_model_drop_last(s: Seq<ColumnValue>)
    requires
        s.len() > 0,
    ensures
        columns_model(s.drop_last()) == columns_model(s).drop_last(),
{
    lemma_columns_model(s);
    lemma_columns_model(s.drop_last());
    assert(columns_model(s.drop_last()) =~= columns_model(s).drop_last());
}

/// Accumulated parsing state of one SELECT statement: the active state and
/// the clause lists gathered so far.
pub struct SelectAcc {
    pub state: ParseState,
    pub columns: Seq<ColumnModel>,
    pub tables: Seq<TableModel>,
    pub join_keys: Seq<JoinKeyModel>,
}

/// A fresh SELECT accumulator: awaiting the first column, nothing
/// gathered.
pub open spec fn select_init() -> SelectAcc {
    SelectAcc { state: ParseState::ColumnsValue, columns: seq![], tables: seq![], join_keys: seq![] }
}

/// One step of the SELECT machine on a word token.
pub open spec fn select_step_word(acc: SelectAcc, s: Seq<char>) -> Result<
    SelectAcc,
    ParseErrorModel,
> {
    match acc.state {
        ParseState::ColumnsValue => Ok(
            SelectAcc {
                state: ParseState::ColumnsNext,
                columns: acc.columns.push(ColumnModel::Plain(s)),
                ..acc
            },
        ),
        ParseState::ColumnsNext => {
            if s == "from"@ {
                Ok(SelectAcc { state: ParseState::TablesValue, ..acc })
            } else {
                Err(ParseErrorModel::UnexpectedToken(TokenView::Word(s), acc.state))
            }
        },
        ParseState::ColumnsFuncParam => select_push_arg(acc, ColumnModel::Plain(s)),
        ParseState::TablesValue => Ok(
            SelectAcc {
                state: ParseState::TablesNext,
                tables: acc.tables.push(TableModel::Name(s)),
                ..acc
            },
        ),
        ParseState::TablesNext => {
            if s == "using"@ {
                Ok(SelectAcc { state: ParseState::UsingValue, ..acc })
            } else if s == "left"@ {
                Ok(select_push_join(acc, JoinKind::Left))
            } else if s == "right"@ {
                Ok(select_push_join(acc, JoinKind::Right))
            } else if s == "inner"@ {
                Ok(select_push_join(acc, JoinKind::Inner))
            } else if s == "natural"@ {
                Ok(select_push_join(acc, JoinKind::Natural))
            } else {
                Err(ParseErrorModel::UnexpectedToken(TokenView::Word(s), acc.state))
            }
        },
        ParseState::TablesJoin => {
            if s == "join"@ {
                Ok(SelectAcc { state: ParseState::TablesValue, ..acc })
            } else {
                Err(ParseErrorModel::UnexpectedToken(TokenView::Word(s), acc.state))
            }
        },
        ParseState::UsingValue => Ok(
            SelectAcc {
                state: ParseState::UsingNext,
                join_keys: acc.join_keys.push(JoinKeyModel::Single(s)),
                ..acc
            },
        ),
        ParseState::UsingNext => {
            // The pending key is always the single name just seen; anything
            // else cannot arise from the transitions above.
            if acc.join_keys.len() > 0 && acc.join_keys.last() is Single {
                Ok(
                    SelectAcc {
                        state: ParseState::UsingDone,
                        join_keys: acc.join_keys.drop_last().push(
                            JoinKeyModel::Pair(acc.join_keys.last()->Single_0, s),
                        ),
                        ..acc
                    },
                )
            } else {
                Err(ParseErrorModel::IncompleteUsingPair)
            }
        },
        ParseState::UsingDone => Err(ParseErrorModel::IncompleteUsingPair),
        _ => Err(ParseErrorModel::UnexpectedToken(TokenView::Word(s), acc.state)),
    }
}

/// A join marker entering the table list; the table it governs must follow
/// the keyword `join`.
pub open spec fn select_push_join(acc: SelectAcc, kind: JoinKind) -> SelectAcc {
    SelectAcc { state: ParseState::TablesJoin, tables: acc.tables.push(TableModel::Join(kind)), ..acc }
}

/// An argument entering the argument list of the function call under
/// construction, which is always the last column. A non-function last
/// column cannot arise from the machine's transitions.
pub open spec fn select_push_arg(acc: SelectAcc, arg: ColumnModel) -> Result<
    SelectAcc,
    ParseErrorModel,
> {
    if acc.columns.len() > 0 && acc.columns.last() is Func {
        let name = acc.columns.last()->Func_0;
        let args = acc.columns.last()->Func_1;
        Ok(
            SelectAcc {
                state: ParseState::ColumnsFuncNext,
                columns: acc.columns.drop_last().push(ColumnModel::Func(name, args.push(arg))),
                ..acc
            },
        )
    } else {
        Err(ParseErrorModel::FunctionOnNonPlainColumn)
    }
}

/// One step of the SELECT machine on a quoted token.
pub open spec fn select_step_quoted(acc: SelectAcc, s: Seq<char>, d: char) -> Result<
    SelectAcc,
    ParseErrorModel,
> {
    match acc.state {
        ParseState::ColumnsValue => Ok(
            SelectAcc {
                state: ParseState::ColumnsNext,
                columns: acc.columns.push(ColumnModel::Quoted(s, d)),
                ..acc
            },
        ),
        ParseState::ColumnsFuncParam => select_push_arg(acc, ColumnModel::Quoted(s, d)),
        _ => Err(ParseErrorModel::UnexpectedToken(TokenView::Quoted(s, d), acc.state)),
    }
}

/// One step of the SELECT machine on a comma.
pub open spec fn select_step_comma(acc: SelectAcc) -> Result<SelectAcc, ParseErrorModel> {
    match acc.state {
        ParseState::ColumnsNext => Ok(SelectAcc { state: ParseState::ColumnsValue, ..acc }),
        ParseState::ColumnsFuncNext => Ok(SelectAcc { state: ParseState::ColumnsFuncParam, ..acc }),
        ParseState::TablesNext => Ok(
            SelectAcc {
                state: ParseState::TablesValue,
                tables: acc.tables.push(TableModel::Join(JoinKind::Cross)),
                ..acc
            },
        ),
        // Structural inside a USING list.
        ParseState::UsingValue => Ok(acc),
        ParseState::UsingNext => Ok(acc),
        ParseState::UsingDone => Ok(acc),
        _ => Err(ParseErrorModel::UnexpectedToken(TokenView::Comma, acc.state)),
    }
}

/// One step of the SELECT machine on a left parenthesis: after a column it
/// turns the last-pushed plain name into a function call; inside a USING
/// list it is structural. A left parenthesis in the table list is reserved
/// for future nested-query support and is an error.
pub open spec fn select_step_left_paren(acc: SelectAcc) -> Result<SelectAcc, ParseErrorModel> {
    match acc.state {
        ParseState::ColumnsNext => {
            if acc.columns.len() > 0 && acc.columns.last() is Plain {
                Ok(
                    SelectAcc {
                        state: ParseState::ColumnsFuncParam,
                        columns: acc.columns.drop_last().push(
                            ColumnModel::Func(acc.columns.last()->Plain_0, seq![]),
                        ),
                        ..acc
                    },
                )
            } else {
                Err(ParseErrorModel::FunctionOnNonPlainColumn)
            }
        },
        // Structural inside a USING list.
        ParseState::UsingValue => Ok(acc),
        ParseState::UsingNext => Ok(acc),
        ParseState::UsingDone => Ok(acc),
        _ => Err(ParseErrorModel::UnexpectedToken(TokenView::LeftParen, acc.state)),
    }
}

/// One step of the SELECT machine on a right parenthesis: it closes a
/// function-call argument list or a USING list.
pub open spec fn select_step_right_paren(acc: SelectAcc) -> Result<SelectAcc, ParseErrorModel> {
    match acc.state {
        ParseState::ColumnsFuncNext => Ok(SelectAcc { state: ParseState::ColumnsNext, ..acc }),
        ParseState::UsingValue => Ok(SelectAcc { state: ParseState::TablesNext, ..acc }),
        ParseState::UsingNext => Ok(SelectAcc { state: ParseState::TablesNext, ..acc }),
        ParseState::UsingDone => Ok(SelectAcc { state: ParseState::TablesNext, ..acc }),
        _ => Err(ParseErrorModel::UnexpectedToken(TokenView::RightParen, acc.state)),
    }
}

/// One step of the SELECT machine on a semicolon, which terminates the
/// statement after a complete column or table list.
pub open spec fn select_step_semicolon(acc: SelectAcc) -> Result<SelectAcc, ParseErrorModel> {
    match acc.state {
        ParseState::ColumnsNext => Ok(SelectAcc { state: ParseState::End, ..acc }),
        ParseState::TablesNext => Ok(SelectAcc { state: ParseState::End, ..acc }),
        _ => Err(ParseErrorModel::UnexpectedToken(TokenView::Semicolon, acc.state)),
    }
}

/// One step of the SELECT machine on any token.
pub open spec fn select_step(acc: SelectAcc, t: TokenView) -> Result<SelectAcc, ParseErrorModel> {
    match t {
        TokenView::Word(s) => select_step_word(acc, s),
        TokenView::Quoted(s, d) => select_step_quoted(acc, s, d),
        TokenView::Comma => select_step_comma(acc),
        TokenView::LeftParen => select_step_left_paren(acc),
        TokenView::RightParen => select_step_right_paren(acc),
        TokenView::Semicolon => select_step_semicolon(acc),
    }
}

/// Recognizing the command keyword: the first token must be a word naming
/// one of the four commands.
pub open spec fn command_step(t: TokenView) -> Result<CommandKind, ParseErrorModel> {
    match t {
        TokenView::Word(s) => {
            if s == "select"@ {
                Ok(CommandKind::Select)
            } else if s == "insert"@ {
                Ok(CommandKind::Insert)
            } else if s == "update"@ {
                Ok(CommandKind::Update)
            } else if s == "delete"@ {
                Ok(CommandKind::Delete)
            } else {
                Err(ParseErrorModel::UnknownCommand)
            }
        },
        _ => Err(ParseErrorModel::UnexpectedToken(t, ParseState::Command)),
    }
}

/// Model of the whole parser: whether the command keyword has been
/// consumed, and the SELECT accumulator.
pub struct ParserModel {
    pub started: bool,
    pub acc: SelectAcc,
}

/// A fresh parser: awaiting the command keyword.
pub open spec fn parser_init() -> ParserModel {
    ParserModel { started: false, acc: select_init() }
}

/// One step of the parser on any token: the command keyword first, the
/// SELECT machine after. The commands whose clause grammars are stubs fail
/// at once.
pub open spec fn parser_step(m: ParserModel, t: TokenView) -> Result<ParserModel, ParseErrorModel> {
    if !m.started {
        match command_step(t) {
            Ok(CommandKind::Select) => Ok(ParserModel { started: true, ..m }),
            Ok(k) => Err(ParseErrorModel::NotImplemented(k)),
            Err(e) => Err(e),
        }
    } else {
        match select_step(m.acc, t) {
            Ok(acc) => Ok(ParserModel { started: true, acc }),
            Err(e) => Err(e),
        }
    }
}

/// The parser run over a token sequence: the model after consuming every
/// token in order, or the first error.
pub open spec fn parser_run(ts: Seq<TokenView>, m: ParserModel) -> Result<
    ParserModel,
    ParseErrorModel,
>
    decreases ts.len(),
{
    if ts.len() == 0 {
        Ok(m)
    } else {
        match parser_step(m, ts.first()) {
            Ok(m2) => parser_run(ts.drop_first(), m2),
            Err(e) => Err(e),
        }
    }
}

/// What remains once the tokens ran out: a statement is owed only when the
/// machine stands in `End`; anything earlier is an incomplete statement.
pub open spec fn parse_finish(m: ParserModel) -> Result<StatementModel, ParseErrorModel> {
    if !m.started {
        Err(ParseErrorModel::UnexpectedEnd(ParseState::Command))
    } else if m.acc.state is End {
        Ok(
            StatementModel::Select(
                SelectModel {
                    columns: m.acc.columns,
                    tables: m.acc.tables,
                    join_keys: m.acc.join_keys,
                },
            ),
        )
    } else {
        Err(ParseErrorModel::UnexpectedEnd(m.acc.state))
    }
}

/// What parsing a token sequence returns: the parser run over every token,
/// then the end-of-input check.
pub open spec fn parse_spec(ts: Seq<TokenView>) -> Result<StatementModel, ParseErrorModel> {
    match parser_run(ts, parser_init()) {
        Ok(m) => parse_finish(m),
        Err(e) => Err(e),
    }
}

/// The SELECT machine: the active state and the clause lists gathered so
/// far. A fresh instance parses exactly one statement's tokens, given in
/// order, and is discarded once it yields a result.
pub struct SelectStruct {
    pub state: ParseState,
    pub columns: Vec<ColumnValue>,
    pub tables: Vec<TableEntry>,
    pub join_keys: Vec<JoinKey>,
}

impl SelectStruct {
    /// The accumulator this machine stands for.
    pub open spec fn model(self) -> SelectAcc {
        SelectAcc {
            state: self.state,
            columns: columns_model(self.columns@),
            tables: tables_model(self.tables@),
            join_keys: join_keys_model(self.join_keys@),
        }
    }

    /// A fresh SELECT machine awaiting the first column.
    pub fn new() -> (r: SelectStruct)
        ensures
            r.model() == select_init(),
    {
        let r = SelectStruct {
            state: ParseState::ColumnsValue,
            columns: Vec::new(),
            tables: Vec::new(),
            join_keys: Vec::new(),
        };
        proof {
            assert(tables_model(r.tables@) =~= Seq::<TableModel>::empty());
            assert(join_keys_model(r.join_keys@) =~= Seq::<JoinKeyModel>::empty());
        }
        r
    }

    /// Consumes one token, advancing the machine as [`select_step`] says,
    /// or reports the first token unconsumable in the active state.
    pub fn handle_token(&mut self, token: &Token) -> (r: Result<(), ParseError>)
        ensures
            match r {
                Ok(_) => select_step(old(self).model(), token@) == Ok::<
                    SelectAcc,
                    ParseErrorModel,
                >(final(self).model()),
                Err(e) => select_step(old(self).model(), token@) == Err::<
                    SelectAcc,
                    ParseErrorModel,
                >(error_model(e)),
            },
    {
        match token {
            Token::Word(_) => self.handle_string(token),
            Token::Quoted(_, _) => self.handle_quoted(token),
            Token::Comma => self.handle_comma(),
            Token::LeftParen => self.handle_left_paren(),
            Token::RightParen => self.handle_right_paren(),
            Token::Semicolon => self.handle_semicolon(),
        }
    }

    /// Consumes one word token: a name, or one of the keywords the active
    /// state expects.
    fn handle_string(&mut self, token: &Token) -> (r: Result<(), ParseError>)
        requires
            token@ is Word,
        ensures
            match r {
                Ok(_) => select_step_word(old(self).model(), token@->Word_0) == Ok::<
                    SelectAcc,
                    ParseErrorModel,
                >(final(self).model()),
                Err(e) => select_step_word(old(self).model(), token@->Word_0) == Err::<
                    SelectAcc,
                    ParseErrorModel,
                >(error_model(e)),
            },
    {
        match self.state {
            ParseState::ColumnsValue => self.handle_column_token(token),
            ParseState::ColumnsNext => {
                if str_eq(token.get_str(), "from") {
                    self.state = ParseState::TablesValue;
                    Ok(())
                } else {
                    Err(ParseError::UnexpectedToken(token.duplicate(), self.state))
                }
            },
            ParseState::ColumnsFuncParam => {
                let arg = match token {
                    Token::Word(s) => ColumnValue::PlainName(s.clone()),
                    _ => ColumnValue::PlainName(String::new()),
                };
                self.handle_column_func_param(arg)
            },
            ParseState::TablesValue => self.handle_table_token(token),
            ParseState::TablesNext => {
                if str_eq(token.get_str(), "using") {
                    self.state = ParseState::UsingValue;
                    Ok(())
                } else if str_eq(token.get_str(), "left") {
                    self.handle_join_marker(JoinKind::Left);
                    Ok(())
                } else if str_eq(token.get_str(), "right") {
                    self.handle_join_marker(JoinKind::Right);
                    Ok(())
                } else if str_eq(token.get_str(), "inner") {
                    self.handle_join_marker(JoinKind::Inner);
                    Ok(())
                } else if str_eq(token.get_str(), "natural") {
                    self.handle_join_marker(JoinKind::Natural);
                    Ok(())
                } else {
                    Err(ParseError::UnexpectedToken(token.duplicate(), self.state))
                }
            },
            ParseState::TablesJoin => {
                if str_eq(token.get_str(), "join") {
                    self.state = ParseState::TablesValue;
                    Ok(())
                } else {
                    Err(ParseError::UnexpectedToken(token.duplicate(), self.state))
                }
            },
            ParseState::UsingValue => self.handle_using_token(token),
            ParseState::UsingNext => self.handle_using_token(token),
            ParseState::UsingDone => Err(ParseError::IncompleteUsingPair),
            _ => Err(ParseError::UnexpectedToken(token.duplicate(), self.state)),
        }
    }

    /// Consumes one quoted token: a quoted column name or function
    /// argument.
    fn handle_quoted(&mut self, token: &Token) -> (r: Result<(), ParseError>)
        requires
            token@ is Quoted,
        ensures
            match r {
                Ok(_) => select_step_quoted(
                    old(self).model(),
                    token@->Quoted_0,
                    token@->Quoted_1,
                ) == Ok::<SelectAcc, ParseErrorModel>(final(self).model()),
                Err(e) => select_step_quoted(
                    old(self).model(),
                    token@->Quoted_0,
                    token@->Quoted_1,
                ) == Err::<SelectAcc, ParseErrorModel>(error_model(e)),
            },
    {
        match self.state {
            ParseState::ColumnsValue => self.handle_column_token(token),
            ParseState::ColumnsFuncParam => {
                let arg = match token {
                    Token::Quoted(s, d) => ColumnValue::QuotedName(s.clone(), *d),
                    _ => ColumnValue::PlainName(String::new()),
                };
                self.handle_column_func_param(arg)
            },
            _ => Err(ParseError::UnexpectedToken(token.duplicate(), self.state)),
        }
    }

    /// Consumes a comma: the separator between columns, function arguments
    /// or tables (where it is an implicit cross join); structural inside a
    /// USING list.
    fn handle_comma(&mut self) -> (r: Result<(), ParseError>)
        ensures
            match r {
                Ok(_) => select_step_comma(old(self).model()) == Ok::<
                    SelectAcc,
                    ParseErrorModel,
                >(final(self).model()),
                Err(e) => select_step_comma(old(self).model()) == Err::<
                    SelectAcc,
                    ParseErrorModel,
                >(error_model(e)),
            },
    {
        match self.state {
            ParseState::ColumnsNext => {
                self.state = ParseState::ColumnsValue;
                Ok(())
            },
            ParseState::ColumnsFuncNext => {
                self.state = ParseState::ColumnsFuncParam;
                Ok(())
            },
            ParseState::TablesNext => {
                let ghost old_tables = self.tables@;
                self.tables.push(TableEntry::JoinMarker(JoinKind::Cross));
                self.state = ParseState::TablesValue;
                proof {
                    assert(tables_model(self.tables@) =~= tables_model(old_tables).push(
                        TableModel::Join(JoinKind::Cross),
                    ));
                }
                Ok(())
            },
            ParseState::UsingValue => Ok(()),
            ParseState::UsingNext => Ok(()),
            ParseState::UsingDone => Ok(()),
            _ => Err(ParseError::UnexpectedToken(Token::Comma, self.state)),
        }
    }

    /// Consumes a left parenthesis: it opens the argument list of a
    /// function call named by the last-pushed plain column; structural
    /// inside a USING list.
    fn handle_left_paren(&mut self) -> (r: Result<(), ParseError>)
        ensures
            match r {
                Ok(_) => select_step_left_paren(old(self).model()) == Ok::<
                    SelectAcc,
                    ParseErrorModel,
                >(final(self).model()),
                Err(e) => select_step_left_paren(old(self).model()) == Err::<
                    SelectAcc,
                    ParseErrorModel,
                >(error_model(e)),
            },
    {
        match self.state {
            ParseState::ColumnsNext => self.handle_column_func(),
            ParseState::UsingValue => Ok(()),
            ParseState::UsingNext => Ok(()),
            ParseState::UsingDone => Ok(()),
            _ => Err(ParseError::UnexpectedToken(Token::LeftParen, self.state)),
        }
    }

    /// Consumes a right parenthesis: it closes a function-call argument
    /// list or a USING list.
    fn handle_right_paren(&mut self) -> (r: Result<(), ParseError>)
        ensures
            match r {
                Ok(_) => select_step_right_paren(old(self).model()) == Ok::<
                    SelectAcc,
                    ParseErrorModel,
                >(final(self).model()),
                Err(e) => select_step_right_paren(old(self).model()) == Err::<
                    SelectAcc,
                    ParseErrorModel,
                >(error_model(e)),
            },
    {
        match self.state {
            ParseState::ColumnsFuncNext => {
                self.state = ParseState::ColumnsNext;
                Ok(())
            },
            ParseState::UsingValue => {
                self.state = ParseState::TablesNext;
                Ok(())
            },
            ParseState::UsingNext => {
                self.state = ParseState::TablesNext;
                Ok(())
            },
            ParseState::UsingDone => {
                self.state = ParseState::TablesNext;
                Ok(())
            },
            _ => Err(ParseError::UnexpectedToken(Token::RightParen, self.state)),
        }
    }

    /// Consumes the terminating semicolon.
    fn handle_semicolon(&mut self) -> (r: Result<(), ParseError>)
        ensures
            match r {
                Ok(_) => select_step_semicolon(old(self).model()) == Ok::<
                    SelectAcc,
                    ParseErrorModel,
                >(final(self).model()),
                Err(e) => select_step_semicolon(old(self).model()) == Err::<
                    SelectAcc,
                    ParseErrorModel,
                >(error_model(e)),
            },
    {
        match self.state {
            ParseState::ColumnsNext => {
                self.state = ParseState::End;
                Ok(())
            },
            ParseState::TablesNext => {
                self.state = ParseState::End;
                Ok(())
            },
            _ => Err(ParseError::UnexpectedToken(Token::Semicolon, self.state)),
        }
    }

    /// Pushes one column name, plain or quoted, and awaits the separator.
    fn handle_column_token(&mut self, token: &Token) -> (r: Result<(), ParseError>)
        requires
            old(self).model().state == ParseState::ColumnsValue,
            token@ is Word || token@ is Quoted,
        ensures
            match r {
                Ok(_) => select_step(old(self).model(), token@) == Ok::<
                    SelectAcc,
                    ParseErrorModel,
                >(final(self).model()),
                Err(e) => select_step(old(self).model(), token@) == Err::<
                    SelectAcc,
                    ParseErrorModel,
                >(error_model(e)),
            },
    {
        let ghost old_columns = self.columns@;
        match token {
            Token::Word(s) => {
                let col = ColumnValue::PlainName(s.clone());
                let ghost pushed = col;
                self.columns.push(col);
                self.state = ParseState::ColumnsNext;
                proof {
                    lemma_columns_model_push(old_columns, pushed);
                }
                Ok(())
            },
            Token::Quoted(s, d) => {
                let col = ColumnValue::QuotedName(s.clone(), *d);
                let ghost pushed = col;
                self.columns.push(col);
                self.state = ParseState::ColumnsNext;
                proof {
                    lemma_columns_model_push(old_columns, pushed);
                }
                Ok(())
            },
            _ => Err(ParseError::UnexpectedToken(token.duplicate(), self.state)),
        }
    }

    /// Turns the last-pushed plain column into a function call with an
    /// empty argument list; a quoted or function column cannot name a
    /// function.
    fn handle_column_func(&mut self) -> (r: Result<(), ParseError>)
        requires
            old(self).model().state == ParseState::ColumnsNext,
        ensures
            match r {
                Ok(_) => select_step_left_paren(old(self).model()) == Ok::<
                    SelectAcc,
                    ParseErrorModel,
                >(final(self).model()),
                Err(e) => select_step_left_paren(old(self).model()) == Err::<
                    SelectAcc,
                    ParseErrorModel,
                >(error_model(e)),
            },
    {
        proof {
            lemma_columns_model(self.columns@);
        }
        match self.columns.pop() {
            Some(col) => {
                let ghost popped = self.columns@;
                match col {
                    ColumnValue::PlainName(s) => {
                        proof {
                            lemma_columns_model_drop_last(old(self).columns@);
                        }
                        let col = ColumnValue::FunctionCall(s, Vec::new());
                        let ghost pushed = col;
                        self.columns.push(col);
                        self.state = ParseState::ColumnsFuncParam;
                        proof {
                            lemma_columns_model_push(popped, pushed);
                        }
                        Ok(())
                    },
                    _ => Err(ParseError::FunctionOnNonPlainColumn),
                }
            },
            None => Err(ParseError::FunctionOnNonPlainColumn),
        }
    }

    /// Appends one argument to the function call under construction, which
    /// is always the last column.
    fn handle_column_func_param(&mut self, arg: ColumnValue) -> (r: Result<(), ParseError>)
        requires
            old(self).model().state == ParseState::ColumnsFuncParam,
        ensures
            match r {
                Ok(_) => select_push_arg(old(self).model(), column_model(arg)) == Ok::<
                    SelectAcc,
                    ParseErrorModel,
                >(final(self).model()),
                Err(e) => select_push_arg(old(self).model(), column_model(arg)) == Err::<
                    SelectAcc,
                    ParseErrorModel,
                >(error_model(e)),
            },
    {
        proof {
            lemma_columns_model(self.columns@);
        }
        match self.columns.pop() {
            Some(col) => {
                let ghost popped = self.columns@;
                match col {
                    ColumnValue::FunctionCall(name, mut args) => {
                        proof {
                            lemma_columns_model_drop_last(old(self).columns@);
                        }
                        let ghost old_args = args@;
                        let ghost pushed_arg = arg;
                        args.push(arg);
                        proof {
                            lemma_columns_model_push(old_args, pushed_arg);
                        }
                        let col = ColumnValue::FunctionCall(name, args);
                        let ghost pushed = col;
                        self.columns.push(col);
                        self.state = ParseState::ColumnsFuncNext;
                        proof {
                            lemma_columns_model_push(popped, pushed);
                        }
                        Ok(())
                    },
                    _ => Err(ParseError::FunctionOnNonPlainColumn),
                }
            },
            None => Err(ParseError::FunctionOnNonPlainColumn),
        }
    }

    /// Pushes one table name and awaits the separator, a join keyword or
    /// the terminating semicolon.
    fn handle_table_token(&mut self, token: &Token) -> (r: Result<(), ParseError>)
        requires
            old(self).model().state == ParseState::TablesValue,
            token@ is Word,
        ensures
            match r {
                Ok(_) => select_step_word(old(self).model(), token@->Word_0) == Ok::<
                    SelectAcc,
                    ParseErrorModel,
                >(final(self).model()),
                Err(e) => select_step_word(old(self).model(), token@->Word_0) == Err::<
                    SelectAcc,
                    ParseErrorModel,
                >(error_model(e)),
            },
    {
        let ghost old_tables = self.tables@;
        match token {
            Token::Word(s) => {
                self.tables.push(TableEntry::TableName(s.clone()));
                self.state = ParseState::TablesNext;
                proof {
                    assert(tables_model(self.tables@) =~= tables_model(old_tables).push(
                        TableModel::Name(token@->Word_0),
                    ));
                }
                Ok(())
            },
            _ => Err(ParseError::UnexpectedToken(token.duplicate(), self.state)),
        }
    }

    /// Pushes the join marker for an explicit join keyword; the governed
    /// table follows the keyword `join`.
    fn handle_join_marker(&mut self, kind: JoinKind)
        ensures
            final(self).model() == select_push_join(old(self).model(), kind),
    {
        let ghost old_tables = self.tables@;
        self.tables.push(TableEntry::JoinMarker(kind));
        self.state = ParseState::TablesJoin;
        proof {
            assert(tables_model(self.tables@) =~= tables_model(old_tables).push(
                TableModel::Join(kind),
            ));
        }
    }

    /// Consumes one name inside a USING list: the first name of a list
    /// opens a single-column key, the second closes it as a column pair,
    /// and a third before the list closes is an error.
    fn handle_using_token(&mut self, token: &Token) -> (r: Result<(), ParseError>)
        requires
            old(self).model().state == ParseState::UsingValue || old(self).model().state
                == ParseState::UsingNext,
            token@ is Word,
        ensures
            match r {
                Ok(_) => select_step_word(old(self).model(), token@->Word_0) == Ok::<
                    SelectAcc,
                    ParseErrorModel,
                >(final(self).model()),
                Err(e) => select_step_word(old(self).model(), token@->Word_0) == Err::<
                    SelectAcc,
                    ParseErrorModel,
                >(error_model(e)),
            },
    {
        let text = match token {
            Token::Word(s) => s.clone(),
            _ => String::new(),
        };
        match self.state {
            ParseState::UsingValue => {
                let ghost old_keys = self.join_keys@;
                self.join_keys.push(JoinKey::SingleColumn(text));
                self.state = ParseState::UsingNext;
                proof {
                    assert(join_keys_model(self.join_keys@) =~= join_keys_model(old_keys).push(
                        JoinKeyModel::Single(token@->Word_0),
                    ));
                }
                Ok(())
            },
            _ => {
                match self.join_keys.pop() {
                    Some(JoinKey::SingleColumn(first)) => {
                        let ghost popped = self.join_keys@;
                        self.join_keys.push(JoinKey::ColumnPair(first, text));
                        self.state = ParseState::UsingDone;
                        proof {
                            assert(join_keys_model(old(self).join_keys@).last()
                                == join_key_model(old(self).join_keys@.last()));
                            assert(join_keys_model(popped) =~= join_keys_model(
                                old(self).join_keys@,
                            ).drop_last());
                            assert(join_keys_model(self.join_keys@) =~= join_keys_model(
                                popped,
                            ).push(
                                JoinKeyModel::Pair(
                                    join_keys_model(old(self).join_keys@).last()->Single_0,
                                    token@->Word_0,
                                ),
                            ));
                        }
                        Ok(())
                    },
                    Some(_) => Err(ParseError::IncompleteUsingPair),
                    None => Err(ParseError::IncompleteUsingPair),
                }
            },
        }
    }
}

/// The statement parser: it recognizes the command keyword, then drives
/// the per-clause machine of that command. An instance is single-use: it
/// parses one statement's token sequence and is discarded once a result
/// is produced.
pub struct Parser {
    started: bool,
    select: SelectStruct,
}

impl Parser {
    /// The parser model this instance stands for.
    pub closed spec fn model(self) -> ParserModel {
        ParserModel { started: self.started, acc: self.select.model() }
    }

    /// A fresh parser awaiting the command keyword.
    pub fn new() -> (r: Parser)
        ensures
            r.model() == parser_init(),
    {
        Parser { started: false, select: SelectStruct::new() }
    }

    /// Recognizes the command keyword. SELECT hands over to the SELECT
    /// machine; the commands whose clause grammars are stubs fail at once;
    /// any other word is an unknown command.
    fn handle_command(&mut self, token: &Token) -> (r: Result<(), ParseError>)
        requires
            !old(self).started,
        ensures
            match r {
                Ok(_) => parser_step(old(self).model(), token@) == Ok::<
                    ParserModel,
                    ParseErrorModel,
                >(final(self).model()),
                Err(e) => parser_step(old(self).model(), token@) == Err::<
                    ParserModel,
                    ParseErrorModel,
                >(error_model(e)),
            },
    {
        match token {
            Token::Word(_) => {
                if str_eq(token.get_str(), "select") {
                    self.started = true;
                    Ok(())
                } else if str_eq(token.get_str(), "insert") {
                    Err(ParseError::NotImplemented(CommandKind::Insert))
                } else if str_eq(token.get_str(), "update") {
                    Err(ParseError::NotImplemented(CommandKind::Update))
                } else if str_eq(token.get_str(), "delete") {
                    Err(ParseError::NotImplemented(CommandKind::Delete))
                } else {
                    Err(ParseError::UnknownCommand)
                }
            },
            _ => Err(ParseError::UnexpectedToken(token.duplicate(), ParseState::Command)),
        }
    }

    /// Consumes one token: the command keyword first, then one step of the
    /// active command's machine.
    pub fn handle_token(&mut self, token: &Token) -> (r: Result<(), ParseError>)
        ensures
            match r {
                Ok(_) => parser_step(old(self).model(), token@) == Ok::<
                    ParserModel,
                    ParseErrorModel,
                >(final(self).model()),
                Err(e) => parser_step(old(self).model(), token@) == Err::<
                    ParserModel,
                    ParseErrorModel,
                >(error_model(e)),
            },
    {
        if !self.started {
            self.handle_command(token)
        } else {
            self.select.handle_token(token)
        }
    }

    /// Ends the input: a statement is owed only when the machine stands in
    /// `End`; an input that ran out earlier is an incomplete statement and
    /// never silently succeeds.
    pub fn finish(self) -> (r: Result<Statement, ParseError>)
        ensures
            match r {
                Ok(stmt) => parse_finish(self.model()) == Ok::<
                    StatementModel,
                    ParseErrorModel,
                >(statement_model(stmt)),
                Err(e) => parse_finish(self.model()) == Err::<
                    StatementModel,
                    ParseErrorModel,
                >(error_model(e)),
            },
    {
        if !self.started {
            return Err(ParseError::UnexpectedEnd(ParseState::Command));
        }
        let sel = self.select;
        if sel.state == ParseState::End {
            Ok(
                Statement::Select(
                    SelectStatement {
                        columns: sel.columns,
                        tables: sel.tables,
                        join_keys: sel.join_keys,
                    },
                ),
            )
        } else {
            Err(ParseError::UnexpectedEnd(sel.state))
        }
    }
}

/// Parses one statement's token sequence, in order, into its structured
/// representation, or reports the first token unconsumable in the active
/// state; an input that runs out before the terminating semicolon is an
/// incomplete statement and fails. The result is exactly what
/// [`parse_spec`] assigns to the tokens' views.
pub fn parse_statement(tokens: &Vec<Token>) -> (r: Result<Statement, ParseError>)
    ensures
        match r {
            Ok(stmt) => parse_spec(token_views(tokens@)) == Ok::<
                StatementModel,
                ParseErrorModel,
            >(statement_model(stmt)),
            Err(e) => parse_spec(token_views(tokens@)) == Err::<
                StatementModel,
                ParseErrorModel,
            >(error_model(e)),
        },
{
    let ghost views = token_views(tokens@);
    let mut parser = Parser::new();
    proof {
        assert(views.subrange(0, views.len() as int) =~= views);
    }
    let mut i: usize = 0;
    while i < tokens.len()
        invariant
            i <= tokens@.len(),
            views == token_views(tokens@),
            parser_run(views, parser_init()) == parser_run(
                views.subrange(i as int, views.len() as int),
                parser.model(),
            ),
        decreases tokens@.len() - i,
    {
        let ghost rest = views.subrange(i as int, views.len() as int);
        proof {
            assert(rest.len() > 0);
            assert(rest.first() == tokens@[i as int]@);
            assert(rest.drop_first() =~= views.subrange(i + 1 as int, views.len() as int));
        }
        match parser.handle_token(&tokens[i]) {
            Ok(_) => {},
            Err(e) => {
                return Err(e);
            },
        }
        i += 1;
    }
    proof {
        assert(views.subrange(views.len() as int, views.len() as int) =~= Seq::<
            TokenView,
        >::empty());
    }
    parser.finish()
}

} // verus!

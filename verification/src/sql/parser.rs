//! The parser: a recursive descent over the tokens of one statement.
//!
//! The grammar is written down twice. The spec functions of this file give it
//! as mathematics: each takes the input and a position and gives the result
//! and the position behind what was read. The methods of `Parser` are proved
//! to compute exactly that.

use crate::sql::ast::{
    column_views, string_views, value_views, Column, ColumnView, DataType, Statement,
    StatementView, Value, ValueView,
};
use crate::sql::lexer::{lemma_lex_advances, lex, Lexer, LexerView};
use crate::sql::token::{LexerError, Token, TokenView};
use crate::text::{
    char_debug, debug_char, debug_str, display_i64, i64_display, str_debug,
};
use vstd::prelude::*;

verus! {

/// Why a statement could not be parsed.
#[derive(Debug)]
pub enum ParserError {
    /// A token that the grammar does not allow where it stands.
    UnexpectedToken(Token),
    /// The lexer failed; the text says how.
    LexerError(String),
    /// The input ended too early.
    Eof,
}

/// A parser error as a mathematical value.
pub enum ParserErrorView {
    UnexpectedToken(TokenView),
    LexerError(Seq<char>),
    Eof,
}

impl View for ParserError {
    type V = ParserErrorView;

    open spec fn view(&self) -> ParserErrorView {
        match self {
            ParserError::UnexpectedToken(t) => ParserErrorView::UnexpectedToken(t@),
            ParserError::LexerError(s) => ParserErrorView::LexerError(s@),
            ParserError::Eof => ParserErrorView::Eof,
        }
    }
}

/// A lexer error in words.
pub open spec fn lexer_error_text(e: LexerError) -> Seq<char> {
    match e {
        LexerError::InvalidCharacter(c) => "InvalidCharacter("@ + char_debug(c) + ")"@,
        LexerError::UnterminatedString => "UnterminatedString"@,
    }
}

/// A token in words.
pub open spec fn token_text(t: TokenView) -> Seq<char> {
    match t {
        TokenView::Create => "Create"@,
        TokenView::Table => "Table"@,
        TokenView::Insert => "Insert"@,
        TokenView::Into => "Into"@,
        TokenView::Values => "Values"@,
        TokenView::Select => "Select"@,
        TokenView::From => "From"@,
        TokenView::Int => "Int"@,
        TokenView::Varchar => "Varchar"@,
        TokenView::Ident(s) => "Ident("@ + str_debug(s) + ")"@,
        TokenView::Integer(n) => "Integer("@ + i64_display(n) + ")"@,
        TokenView::String(s) => "String("@ + str_debug(s) + ")"@,
        TokenView::LParen => "LParen"@,
        TokenView::RParen => "RParen"@,
        TokenView::Comma => "Comma"@,
        TokenView::Semicolon => "Semicolon"@,
        TokenView::Eof => "Eof"@,
    }
}

/// A parser error in words.
pub open spec fn parser_error_text(e: ParserErrorView) -> Seq<char> {
    match e {
        ParserErrorView::UnexpectedToken(t) => "Unexpected token: "@ + token_text(t),
        ParserErrorView::LexerError(s) => "Lexer error: "@ + s,
        ParserErrorView::Eof => "Unexpected end of input"@,
    }
}

/// Writes a lexer error in words.
pub fn describe_lexer_error(e: LexerError) -> (text: String)
    ensures
        text@ == lexer_error_text(e),
{
    match e {
        LexerError::InvalidCharacter(c) => {
            let shown = debug_char(c);
            String::from_str("InvalidCharacter(").concat(shown.as_str()).concat(")")
        },
        LexerError::UnterminatedString => String::from_str("UnterminatedString"),
    }
}

/// Writes a token in words.
pub fn describe_token(t: &Token) -> (text: String)
    ensures
        text@ == token_text(t@),
{
    match t {
        Token::Create => String::from_str("Create"),
        Token::Table => String::from_str("Table"),
        Token::Insert => String::from_str("Insert"),
        Token::Into => String::from_str("Into"),
        Token::Values => String::from_str("Values"),
        Token::Select => String::from_str("Select"),
        Token::From => String::from_str("From"),
        Token::Int => String::from_str("Int"),
        Token::Varchar => String::from_str("Varchar"),
        Token::Ident(s) => {
            let shown = debug_str(s.as_str());
            String::from_str("Ident(").concat(shown.as_str()).concat(")")
        },
        Token::Integer(n) => {
            let shown = display_i64(*n);
            String::from_str("Integer(").concat(shown.as_str()).concat(")")
        },
        Token::String(s) => {
            let shown = debug_str(s.as_str());
            String::from_str("String(").concat(shown.as_str()).concat(")")
        },
        Token::LParen => String::from_str("LParen"),
        Token::RParen => String::from_str("RParen"),
        Token::Comma => String::from_str("Comma"),
        Token::Semicolon => String::from_str("Semicolon"),
        Token::Eof => String::from_str("Eof"),
    }
}

impl ParserError {
    /// The error in words.
    pub fn to_string(&self) -> (text: String)
        ensures
            text@ == parser_error_text(self@),
    {
        match self {
            ParserError::UnexpectedToken(t) => {
                let shown = describe_token(t);
                String::from_str("Unexpected token: ").concat(shown.as_str())
            },
            ParserError::LexerError(s) => String::from_str("Lexer error: ").concat(s.as_str()),
            ParserError::Eof => String::from_str("Unexpected end of input"),
        }
    }
}

/// What a rule gives: a value or an error, and the position behind what it
/// read.
pub type Parsed<T> = (Result<T, ParserErrorView>, int);

/// The view of a result of the parser.
pub open spec fn result_view<T: View>(r: Result<T, ParserError>) -> Result<T::V, ParserErrorView> {
    match r {
        Ok(v) => Ok(v@),
        Err(e) => Err(e@),
    }
}

/// The next token. The end of the input reads as the token `Eof`, and an
/// error of the lexer as an error of the parser that carries it in words.
pub open spec fn next_token(chars: Seq<char>, pos: int) -> Parsed<TokenView> {
    let (item, after) = lex(chars, pos);
    (
        match item {
            None => Ok(TokenView::Eof),
            Some(Ok(t)) => Ok(t),
            Some(Err(e)) => Err(ParserErrorView::LexerError(lexer_error_text(e))),
        },
        after,
    )
}

/// The next token must be `expected`.
pub open spec fn expect_token(chars: Seq<char>, pos: int, expected: TokenView) -> Parsed<()> {
    let (token, after) = next_token(chars, pos);
    (
        match token {
            Ok(t) => if t == expected {
                Ok(())
            } else {
                Err(ParserErrorView::UnexpectedToken(t))
            },
            Err(e) => Err(e),
        },
        after,
    )
}

/// The next token must be an identifier; gives its name.
pub open spec fn expect_identifier(chars: Seq<char>, pos: int) -> Parsed<Seq<char>> {
    let (token, after) = next_token(chars, pos);
    (
        match token {
            Ok(TokenView::Ident(name)) => Ok(name),
            Ok(t) => Err(ParserErrorView::UnexpectedToken(t)),
            Err(e) => Err(e),
        },
        after,
    )
}

/// Whether the next token is `expected`.
pub open spec fn check_token(chars: Seq<char>, pos: int, expected: TokenView) -> bool {
    next_token(chars, pos).0 == Ok::<TokenView, ParserErrorView>(expected)
}

/// The column type that a token names.
pub open spec fn data_type_of(t: TokenView) -> Option<DataType> {
    match t {
        TokenView::Int => Some(DataType::Int),
        TokenView::Varchar => Some(DataType::Varchar),
        _ => None,
    }
}

/// The literal value that a token is.
pub open spec fn literal_of(t: TokenView) -> Option<ValueView> {
    match t {
        TokenView::Integer(n) => Some(ValueView::Integer(n)),
        TokenView::String(s) => Some(ValueView::String(s)),
        _ => None,
    }
}

/// `name type { "," name type }`, appended to `seen`.
pub open spec fn parse_columns(chars: Seq<char>, pos: int, seen: Seq<ColumnView>) -> Parsed<
    Seq<ColumnView>,
>
    decreases chars.len() - pos,
    when 0 <= pos <= chars.len()
{
    let (name, pos1) = expect_identifier(chars, pos);
    match name {
        Err(e) => (Err(e), pos1),
        Ok(name) => {
            let (token, pos2) = next_token(chars, pos1);
            match token {
                Err(e) => (Err(e), pos2),
                Ok(t) => match data_type_of(t) {
                    None => (Err(ParserErrorView::UnexpectedToken(t)), pos2),
                    Some(data_type) => {
                        let columns = seen.push(ColumnView { name, data_type });
                        if check_token(chars, pos2, TokenView::Comma) {
                            proof {
                                lemma_lex_advances(chars, pos);
                                lemma_lex_advances(chars, pos1);
                                lemma_lex_advances(chars, pos2);
                            }
                            parse_columns(chars, next_token(chars, pos2).1, columns)
                        } else {
                            (Ok(columns), pos2)
                        }
                    },
                },
            }
        },
    }
}

/// `literal { "," literal }`, appended to `seen`.
pub open spec fn parse_values(chars: Seq<char>, pos: int, seen: Seq<ValueView>) -> Parsed<
    Seq<ValueView>,
>
    decreases chars.len() - pos,
    when 0 <= pos <= chars.len()
{
    let (token, pos1) = next_token(chars, pos);
    match token {
        Err(e) => (Err(e), pos1),
        Ok(t) => match literal_of(t) {
            None => (Err(ParserErrorView::UnexpectedToken(t)), pos1),
            Some(value) => {
                let values = seen.push(value);
                if check_token(chars, pos1, TokenView::Comma) {
                    proof {
                        lemma_lex_advances(chars, pos);
                        lemma_lex_advances(chars, pos1);
                    }
                    parse_values(chars, next_token(chars, pos1).1, values)
                } else {
                    (Ok(values), pos1)
                }
            },
        },
    }
}

/// `name { "," name }`, appended to `seen`.
pub open spec fn parse_names(chars: Seq<char>, pos: int, seen: Seq<Seq<char>>) -> Parsed<
    Seq<Seq<char>>,
>
    decreases chars.len() - pos,
    when 0 <= pos <= chars.len()
{
    let (name, pos1) = expect_identifier(chars, pos);
    match name {
        Err(e) => (Err(e), pos1),
        Ok(name) => {
            let names = seen.push(name);
            if check_token(chars, pos1, TokenView::Comma) {
                proof {
                    lemma_lex_advances(chars, pos);
                    lemma_lex_advances(chars, pos1);
                }
                parse_names(chars, next_token(chars, pos1).1, names)
            } else {
                (Ok(names), pos1)
            }
        },
    }
}

/// `CREATE TABLE name "(" [ columns ] ")"`.
pub open spec fn parse_create(chars: Seq<char>, pos: int) -> Parsed<StatementView> {
    let (create, pos1) = expect_token(chars, pos, TokenView::Create);
    if create is Err {
        (Err(create->Err_0), pos1)
    } else {
        let (table, pos2) = expect_token(chars, pos1, TokenView::Table);
        if table is Err {
            (Err(table->Err_0), pos2)
        } else {
            let (name, pos3) = expect_identifier(chars, pos2);
            if name is Err {
                (Err(name->Err_0), pos3)
            } else {
                let (open, pos4) = expect_token(chars, pos3, TokenView::LParen);
                if open is Err {
                    (Err(open->Err_0), pos4)
                } else {
                    let (columns, pos5) = if check_token(chars, pos4, TokenView::RParen) {
                        (Ok(Seq::<ColumnView>::empty()), pos4)
                    } else {
                        parse_columns(chars, pos4, Seq::empty())
                    };
                    if columns is Err {
                        (Err(columns->Err_0), pos5)
                    } else {
                        let (close, pos6) = expect_token(chars, pos5, TokenView::RParen);
                        if close is Err {
                            (Err(close->Err_0), pos6)
                        } else {
                            (
                                Ok(
                                    StatementView::CreateTable {
                                        table_name: name->Ok_0,
                                        columns: columns->Ok_0,
                                    },
                                ),
                                pos6,
                            )
                        }
                    }
                }
            }
        }
    }
}

/// `SELECT names FROM name`.
pub open spec fn parse_select(chars: Seq<char>, pos: int) -> Parsed<StatementView> {
    let (select, pos1) = expect_token(chars, pos, TokenView::Select);
    if select is Err {
        (Err(select->Err_0), pos1)
    } else {
        let (columns, pos2) = parse_names(chars, pos1, Seq::empty());
        if columns is Err {
            (Err(columns->Err_0), pos2)
        } else {
            let (from, pos3) = expect_token(chars, pos2, TokenView::From);
            if from is Err {
                (Err(from->Err_0), pos3)
            } else {
                let (name, pos4) = expect_identifier(chars, pos3);
                if name is Err {
                    (Err(name->Err_0), pos4)
                } else {
                    (
                        Ok(
                            StatementView::Select {
                                table_name: name->Ok_0,
                                columns: columns->Ok_0,
                            },
                        ),
                        pos4,
                    )
                }
            }
        }
    }
}

/// `INSERT INTO name VALUES "(" [ values ] ")"`.
pub open spec fn parse_insert(chars: Seq<char>, pos: int) -> Parsed<StatementView> {
    let (insert, pos1) = expect_token(chars, pos, TokenView::Insert);
    if insert is Err {
        (Err(insert->Err_0), pos1)
    } else {
        let (into, pos2) = expect_token(chars, pos1, TokenView::Into);
        if into is Err {
            (Err(into->Err_0), pos2)
        } else {
            let (name, pos3) = expect_identifier(chars, pos2);
            if name is Err {
                (Err(name->Err_0), pos3)
            } else {
                let (values_word, pos4) = expect_token(chars, pos3, TokenView::Values);
                if values_word is Err {
                    (Err(values_word->Err_0), pos4)
                } else {
                    let (open, pos5) = expect_token(chars, pos4, TokenView::LParen);
                    if open is Err {
                        (Err(open->Err_0), pos5)
                    } else {
                        let (values, pos6) = if check_token(chars, pos5, TokenView::RParen) {
                            (Ok(Seq::<ValueView>::empty()), pos5)
                        } else {
                            parse_values(chars, pos5, Seq::empty())
                        };
                        if values is Err {
                            (Err(values->Err_0), pos6)
                        } else {
                            let (close, pos7) = expect_token(chars, pos6, TokenView::RParen);
                            if close is Err {
                                (Err(close->Err_0), pos7)
                            } else {
                                (
                                    Ok(
                                        StatementView::Insert {
                                            table_name: name->Ok_0,
                                            values: values->Ok_0,
                                        },
                                    ),
                                    pos7,
                                )
                            }
                        }
                    }
                }
            }
        }
    }
}

/// A statement, told by its first token.
pub open spec fn parse_statement(chars: Seq<char>, pos: int) -> Parsed<StatementView> {
    match next_token(chars, pos).0 {
        Ok(TokenView::Create) => parse_create(chars, pos),
        Ok(TokenView::Select) => parse_select(chars, pos),
        Ok(TokenView::Insert) => parse_insert(chars, pos),
        Ok(t) => (Err(ParserErrorView::UnexpectedToken(t)), pos),
        Err(e) => (Err(e), pos),
    }
}

/// A statement, then a semicolon or the end of the input. What follows a
/// semicolon is not looked at.
pub open spec fn parse_input(chars: Seq<char>, pos: int) -> Parsed<StatementView> {
    let (statement, pos1) = parse_statement(chars, pos);
    if statement is Err {
        (statement, pos1)
    } else {
        match next_token(chars, pos1).0 {
            Ok(TokenView::Semicolon) => (statement, next_token(chars, pos1).1),
            Ok(TokenView::Eof) => (statement, pos1),
            Ok(t) => (Err(ParserErrorView::UnexpectedToken(t)), pos1),
            Err(e) => (Err(e), pos1),
        }
    }
}

/// What parsing a whole text gives.
pub open spec fn parsed(text: Seq<char>) -> Result<StatementView, ParserErrorView> {
    parse_input(text, 0).0
}

/// Parses one statement.
pub struct Parser {
    lexer: Lexer,
}

impl View for Parser {
    type V = LexerView;

    closed spec fn view(&self) -> LexerView {
        self.lexer@
    }
}

impl Parser {
    /// A parser at the start of `input`.
    pub fn new(input: &str) -> (parser: Parser)
        ensures
            parser@.chars == input@,
            parser@.pos == 0,
    {
        Parser { lexer: Lexer::new(input) }
    }

    /// Parses the statement and what may follow it.
    pub fn parse(&mut self) -> (statement: Result<Statement, ParserError>)
        ensures
            final(self)@.chars == old(self)@.chars,
            (result_view(statement), final(self)@.pos) == parse_input(
                old(self)@.chars,
                old(self)@.pos,
            ),
    {
        let statement = self.parse_statement()?;
        match self.peek_token() {
            Ok(Token::Semicolon) => {
                let _ = self.next_token();
            },
            Ok(Token::Eof) => {},
            Ok(t) => {
                return Err(ParserError::UnexpectedToken(t));
            },
            Err(e) => {
                return Err(e);
            },
        }
        Ok(statement)
    }

    fn parse_statement(&mut self) -> (statement: Result<Statement, ParserError>)
        ensures
            final(self)@.chars == old(self)@.chars,
            (result_view(statement), final(self)@.pos) == parse_statement(
                old(self)@.chars,
                old(self)@.pos,
            ),
            0 <= old(self)@.pos <= final(self)@.pos <= old(self)@.chars.len(),
    {
        match self.peek_token() {
            Ok(Token::Create) => self.parse_create(),
            Ok(Token::Select) => self.parse_select(),
            Ok(Token::Insert) => self.parse_insert(),
            Ok(t) => Err(ParserError::UnexpectedToken(t)),
            Err(e) => Err(e),
        }
    }

    fn parse_create(&mut self) -> (statement: Result<Statement, ParserError>)
        ensures
            final(self)@.chars == old(self)@.chars,
            (result_view(statement), final(self)@.pos) == parse_create(
                old(self)@.chars,
                old(self)@.pos,
            ),
            0 <= old(self)@.pos <= final(self)@.pos <= old(self)@.chars.len(),
    {
        let ghost chars = self@.chars;
        self.expect_token(Token::Create)?;
        self.expect_token(Token::Table)?;
        let table_name = self.expect_identifier()?;
        self.expect_token(Token::LParen)?;
        let columns: Vec<Column> = if self.check_token(Token::RParen) {
            let none: Vec<Column> = Vec::new();
            assert(column_views(none@) =~= Seq::<ColumnView>::empty());
            none
        } else {
            self.column_list()?
        };
        self.expect_token(Token::RParen)?;
        Ok(Statement::CreateTable { table_name, columns })
    }

    fn parse_select(&mut self) -> (statement: Result<Statement, ParserError>)
        ensures
            final(self)@.chars == old(self)@.chars,
            (result_view(statement), final(self)@.pos) == parse_select(
                old(self)@.chars,
                old(self)@.pos,
            ),
            0 <= old(self)@.pos <= final(self)@.pos <= old(self)@.chars.len(),
    {
        let ghost chars = self@.chars;
        self.expect_token(Token::Select)?;
        let columns: Vec<String> = self.name_list()?;
        self.expect_token(Token::From)?;
        let table_name = self.expect_identifier()?;
        Ok(Statement::Select { table_name, columns })
    }

    fn parse_insert(&mut self) -> (statement: Result<Statement, ParserError>)
        ensures
            final(self)@.chars == old(self)@.chars,
            (result_view(statement), final(self)@.pos) == parse_insert(
                old(self)@.chars,
                old(self)@.pos,
            ),
            0 <= old(self)@.pos <= final(self)@.pos <= old(self)@.chars.len(),
    {
        let ghost chars = self@.chars;
        self.expect_token(Token::Insert)?;
        self.expect_token(Token::Into)?;
        let table_name = self.expect_identifier()?;
        self.expect_token(Token::Values)?;
        self.expect_token(Token::LParen)?;
        let values: Vec<Value> = if self.check_token(Token::RParen) {
            let none: Vec<Value> = Vec::new();
            assert(value_views(none@) =~= Seq::<ValueView>::empty());
            none
        } else {
            self.value_list()?
        };
        self.expect_token(Token::RParen)?;
        Ok(Statement::Insert { table_name, values })
    }

    /// The columns of a table: `name type`, separated by commas.
    fn column_list(&mut self) -> (list: Result<Vec<Column>, ParserError>)
        requires
            0 <= old(self)@.pos <= old(self)@.chars.len(),
        ensures
            final(self)@.chars == old(self)@.chars,
            0 <= old(self)@.pos <= final(self)@.pos <= old(self)@.chars.len(),
            final(self)@.pos == parse_columns(old(self)@.chars, old(self)@.pos, Seq::empty()).1,
            match list {
                Ok(columns) => parse_columns(old(self)@.chars, old(self)@.pos, Seq::empty()).0
                    == Ok::<Seq<ColumnView>, ParserErrorView>(column_views(columns@)),
                Err(e) => parse_columns(old(self)@.chars, old(self)@.pos, Seq::empty()).0 == Err::<
                    Seq<ColumnView>,
                    ParserErrorView,
                >(e@),
            },
    {
        let ghost chars = self@.chars;
        let ghost start = self@.pos;
        let mut columns: Vec<Column> = Vec::new();
        assert(column_views(columns@) =~= Seq::<ColumnView>::empty());
        loop
            invariant_except_break
                parse_columns(chars, self@.pos, column_views(columns@)) == parse_columns(
                    chars,
                    start,
                    Seq::empty(),
                ),
            invariant
                self@.chars == chars,
                chars == old(self)@.chars,
                start == old(self)@.pos,
                0 <= start <= self@.pos <= chars.len(),
            ensures
                parse_columns(chars, start, Seq::empty()) == (
                    Ok::<Seq<ColumnView>, ParserErrorView>(column_views(columns@)),
                    self@.pos,
                ),
            decreases chars.len() - self@.pos,
        {
            let ghost seen = column_views(columns@);
            let ghost at = self@.pos;
            let col_name = self.expect_identifier()?;
            let data_type = match self.next_token()? {
                Token::Int => DataType::Int,
                Token::Varchar => DataType::Varchar,
                t => {
                    return Err(ParserError::UnexpectedToken(t));
                },
            };
            let ghost name_view = col_name@;
            columns.push(Column { name: col_name, data_type });
            assert(column_views(columns@) =~= seen.push(
                ColumnView { name: name_view, data_type },
            ));
            proof {
                lemma_lex_advances(chars, at);
            }
            if !self.consume_if(Token::Comma) {
                break;
            }
        }
        Ok(columns)
    }

    /// The values of a row: literals, separated by commas.
    fn value_list(&mut self) -> (list: Result<Vec<Value>, ParserError>)
        requires
            0 <= old(self)@.pos <= old(self)@.chars.len(),
        ensures
            final(self)@.chars == old(self)@.chars,
            0 <= old(self)@.pos <= final(self)@.pos <= old(self)@.chars.len(),
            final(self)@.pos == parse_values(old(self)@.chars, old(self)@.pos, Seq::empty()).1,
            match list {
                Ok(values) => parse_values(old(self)@.chars, old(self)@.pos, Seq::empty()).0
                    == Ok::<Seq<ValueView>, ParserErrorView>(value_views(values@)),
                Err(e) => parse_values(old(self)@.chars, old(self)@.pos, Seq::empty()).0 == Err::<
                    Seq<ValueView>,
                    ParserErrorView,
                >(e@),
            },
    {
        let ghost chars = self@.chars;
        let ghost start = self@.pos;
        let mut values: Vec<Value> = Vec::new();
        assert(value_views(values@) =~= Seq::<ValueView>::empty());
        loop
            invariant_except_break
                parse_values(chars, self@.pos, value_views(values@)) == parse_values(
                    chars,
                    start,
                    Seq::empty(),
                ),
            invariant
                self@.chars == chars,
                chars == old(self)@.chars,
                start == old(self)@.pos,
                0 <= start <= self@.pos <= chars.len(),
            ensures
                parse_values(chars, start, Seq::empty()) == (
                    Ok::<Seq<ValueView>, ParserErrorView>(value_views(values@)),
                    self@.pos,
                ),
            decreases chars.len() - self@.pos,
        {
            let ghost seen = value_views(values@);
            let ghost at = self@.pos;
            let value = match self.next_token()? {
                Token::Integer(i) => Value::Integer(i),
                Token::String(s) => Value::String(s),
                t => {
                    return Err(ParserError::UnexpectedToken(t));
                },
            };
            let ghost value_view = value@;
            values.push(value);
            assert(value_views(values@) =~= seen.push(value_view));
            proof {
                lemma_lex_advances(chars, at);
            }
            if !self.consume_if(Token::Comma) {
                break;
            }
        }
        Ok(values)
    }

    /// The columns of a selection: names, separated by commas.
    fn name_list(&mut self) -> (list: Result<Vec<String>, ParserError>)
        requires
            0 <= old(self)@.pos <= old(self)@.chars.len(),
        ensures
            final(self)@.chars == old(self)@.chars,
            0 <= old(self)@.pos <= final(self)@.pos <= old(self)@.chars.len(),
            final(self)@.pos == parse_names(old(self)@.chars, old(self)@.pos, Seq::empty()).1,
            match list {
                Ok(names) => parse_names(old(self)@.chars, old(self)@.pos, Seq::empty()).0 == Ok::<
                    Seq<Seq<char>>,
                    ParserErrorView,
                >(string_views(names@)),
                Err(e) => parse_names(old(self)@.chars, old(self)@.pos, Seq::empty()).0 == Err::<
                    Seq<Seq<char>>,
                    ParserErrorView,
                >(e@),
            },
    {
        let ghost chars = self@.chars;
        let ghost start = self@.pos;
        let mut names: Vec<String> = Vec::new();
        assert(string_views(names@) =~= Seq::<Seq<char>>::empty());
        loop
            invariant_except_break
                parse_names(chars, self@.pos, string_views(names@)) == parse_names(
                    chars,
                    start,
                    Seq::empty(),
                ),
            invariant
                self@.chars == chars,
                chars == old(self)@.chars,
                start == old(self)@.pos,
                0 <= start <= self@.pos <= chars.len(),
            ensures
                parse_names(chars, start, Seq::empty()) == (
                    Ok::<Seq<Seq<char>>, ParserErrorView>(string_views(names@)),
                    self@.pos,
                ),
            decreases chars.len() - self@.pos,
        {
            let ghost seen = string_views(names@);
            let ghost at = self@.pos;
            let name = self.expect_identifier()?;
            let ghost name_view = name@;
            names.push(name);
            assert(string_views(names@) =~= seen.push(name_view));
            proof {
                lemma_lex_advances(chars, at);
            }
            if !self.consume_if(Token::Comma) {
                break;
            }
        }
        Ok(names)
    }

    fn next_token(&mut self) -> (token: Result<Token, ParserError>)
        ensures
            final(self)@.chars == old(self)@.chars,
            (result_view(token), final(self)@.pos) == next_token(old(self)@.chars, old(self)@.pos),
            0 <= old(self)@.pos <= final(self)@.pos <= old(self)@.chars.len(),
    {
        match self.lexer.next() {
            None => Ok(Token::Eof),
            Some(Ok(t)) => Ok(t),
            Some(Err(e)) => Err(ParserError::LexerError(describe_lexer_error(e))),
        }
    }

    fn peek_token(&mut self) -> (token: Result<Token, ParserError>)
        ensures
            final(self)@ == old(self)@,
            result_view(token) == next_token(old(self)@.chars, old(self)@.pos).0,
            0 <= old(self)@.pos <= old(self)@.chars.len(),
    {
        match self.lexer.peek() {
            None => Ok(Token::Eof),
            Some(Ok(t)) => Ok(t),
            Some(Err(e)) => Err(ParserError::LexerError(describe_lexer_error(e))),
        }
    }

    fn expect_token(&mut self, expected: Token) -> (met: Result<(), ParserError>)
        ensures
            final(self)@.chars == old(self)@.chars,
            (result_view(met), final(self)@.pos) == expect_token(
                old(self)@.chars,
                old(self)@.pos,
                expected@,
            ),
            0 <= old(self)@.pos <= final(self)@.pos <= old(self)@.chars.len(),
    {
        let token = self.next_token()?;
        if token == expected {
            Ok(())
        } else {
            Err(ParserError::UnexpectedToken(token))
        }
    }

    fn expect_identifier(&mut self) -> (name: Result<String, ParserError>)
        ensures
            final(self)@.chars == old(self)@.chars,
            (result_view(name), final(self)@.pos) == expect_identifier(
                old(self)@.chars,
                old(self)@.pos,
            ),
            0 <= old(self)@.pos <= final(self)@.pos <= old(self)@.chars.len(),
    {
        match self.next_token()? {
            Token::Ident(name) => Ok(name),
            t => Err(ParserError::UnexpectedToken(t)),
        }
    }

    fn check_token(&mut self, expected: Token) -> (found: bool)
        ensures
            final(self)@ == old(self)@,
            found == check_token(old(self)@.chars, old(self)@.pos, expected@),
            0 <= old(self)@.pos <= old(self)@.chars.len(),
    {
        match self.peek_token() {
            Ok(t) => t == expected,
            Err(_) => false,
        }
    }

    fn consume_if(&mut self, expected: Token) -> (taken: bool)
        ensures
            final(self)@.chars == old(self)@.chars,
            taken == check_token(old(self)@.chars, old(self)@.pos, expected@),
            final(self)@.pos == if taken {
                next_token(old(self)@.chars, old(self)@.pos).1
            } else {
                old(self)@.pos
            },
            0 <= old(self)@.pos <= final(self)@.pos <= old(self)@.chars.len(),
    {
        if self.check_token(expected) {
            self.next_token().is_ok()
        } else {
            false
        }
    }
}

/// Parses a text as one statement.
pub fn parse_sql(sql: &str) -> (statement: Result<Statement, ParserError>)
    ensures
        result_view(statement) == parsed(sql@),
{
    let mut parser = Parser::new(sql);
    parser.parse()
}

} // verus!

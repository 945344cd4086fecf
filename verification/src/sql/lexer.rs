//! The lexer: cuts the input into tokens, one at a time.

use crate::sql::token::{LexerError, Token, TokenView};
use crate::text::{
    alphabetic, alphanumeric, ascii_digit, is_alphabetic, is_alphanumeric, is_whitespace,
    parse_i64, parsed_i64, push_char, to_uppercase, uppercased, whitespace,
};
use vstd::prelude::*;

verus! {

/// The classes of characters that the lexer reads in runs.
#[derive(Debug, Clone, Copy, PartialEq, Eq)]
pub enum CharClass {
    /// White space between tokens.
    Space,
    /// What may follow the first letter of a word: letters, digits, `_`.
    Word,
    /// Decimal digits.
    Digit,
    /// Anything but the quote that ends a string.
    Quoted,
}

impl CharClass {
    pub open spec fn holds(self, c: char) -> bool {
        match self {
            CharClass::Space => whitespace(c),
            CharClass::Word => alphanumeric(c) || c == '_',
            CharClass::Digit => ascii_digit(c),
            CharClass::Quoted => c != '\'',
        }
    }
}

/// Where the run of characters of a class that starts at `from` ends: the
/// position of the first character from `from` on that is not of the class,
/// or the end of the input.
pub open spec fn run_end(chars: Seq<char>, from: int, class: CharClass) -> int
    decreases chars.len() - from,
{
    if 0 <= from < chars.len() && class.holds(chars[from]) {
        run_end(chars, from + 1, class)
    } else {
        from
    }
}

/// A run ends between its start and the end of the input.
pub proof fn lemma_run_end_bounds(chars: Seq<char>, from: int, class: CharClass)
    requires
        0 <= from <= chars.len(),
    ensures
        from <= run_end(chars, from, class) <= chars.len(),
    decreases chars.len() - from,
{
    if from < chars.len() && class.holds(chars[from]) {
        lemma_run_end_bounds(chars, from + 1, class);
    }
}

/// The keyword that an upper-cased word is, if it is one.
pub open spec fn keyword(upper: Seq<char>) -> Option<TokenView> {
    if upper == "CREATE"@ {
        Some(TokenView::Create)
    } else if upper == "TABLE"@ {
        Some(TokenView::Table)
    } else if upper == "INSERT"@ {
        Some(TokenView::Insert)
    } else if upper == "INTO"@ {
        Some(TokenView::Into)
    } else if upper == "VALUES"@ {
        Some(TokenView::Values)
    } else if upper == "SELECT"@ {
        Some(TokenView::Select)
    } else if upper == "FROM"@ {
        Some(TokenView::From)
    } else if upper == "INT"@ {
        Some(TokenView::Int)
    } else if upper == "VARCHAR"@ {
        Some(TokenView::Varchar)
    } else {
        None
    }
}

/// The token that a word is: a keyword, whatever its case, or an
/// identifier with the word as written.
pub open spec fn word_token(word: Seq<char>) -> TokenView {
    match keyword(uppercased(word)) {
        Some(token) => token,
        None => TokenView::Ident(word),
    }
}

/// The number that a numeral is, or 0 where it does not fit in an `i64`.
pub open spec fn number_value(numeral: Seq<char>) -> i64 {
    match parsed_i64(numeral) {
        Some(n) => n,
        None => 0,
    }
}

/// The next token from position `pos` on and the position behind it, or no
/// token at the end of the input. White space in front of the token is
/// skipped. A string runs from a quote to the next; without a closing quote
/// the rest of the input is consumed and the string is unterminated. A word
/// starts with a letter, a numeral with a digit. Any other character is
/// consumed and reported as invalid.
pub open spec fn lex(chars: Seq<char>, pos: int) -> (Option<Result<TokenView, LexerError>>, int) {
    let start = run_end(chars, pos, CharClass::Space);
    if start >= chars.len() {
        (None, start)
    } else {
        let c = chars[start];
        if c == '(' {
            (Some(Ok(TokenView::LParen)), start + 1)
        } else if c == ')' {
            (Some(Ok(TokenView::RParen)), start + 1)
        } else if c == ',' {
            (Some(Ok(TokenView::Comma)), start + 1)
        } else if c == ';' {
            (Some(Ok(TokenView::Semicolon)), start + 1)
        } else if c == '\'' {
            let close = run_end(chars, start + 1, CharClass::Quoted);
            if close < chars.len() {
                (Some(Ok(TokenView::String(chars.subrange(start + 1, close)))), close + 1)
            } else {
                (Some(Err(LexerError::UnterminatedString)), close)
            }
        } else if alphabetic(c) {
            let end = run_end(chars, start + 1, CharClass::Word);
            (Some(Ok(word_token(chars.subrange(start, end)))), end)
        } else if ascii_digit(c) {
            let end = run_end(chars, start + 1, CharClass::Digit);
            (Some(Ok(TokenView::Integer(number_value(chars.subrange(start, end))))), end)
        } else {
            (Some(Err(LexerError::InvalidCharacter(c))), start + 1)
        }
    }
}

/// A step of the lexer stays within the input, and a step that gives a
/// token moves forward.
pub proof fn lemma_lex_advances(chars: Seq<char>, pos: int)
    requires
        0 <= pos <= chars.len(),
    ensures
        pos <= lex(chars, pos).1 <= chars.len(),
        lex(chars, pos).0 is Some ==> pos < lex(chars, pos).1,
{
    lemma_run_end_bounds(chars, pos, CharClass::Space);
    let start = run_end(chars, pos, CharClass::Space);
    if start < chars.len() {
        lemma_run_end_bounds(chars, start + 1, CharClass::Quoted);
        lemma_run_end_bounds(chars, start + 1, CharClass::Word);
        lemma_run_end_bounds(chars, start + 1, CharClass::Digit);
    }
}

/// Text equality of two string slices.
pub fn same_text(a: &str, b: &str) -> (same: bool)
    ensures
        same == (a@ == b@),
{
    let left = String::from_str(a);
    let right = String::from_str(b);
    left == right
}

/// Tells an ASCII decimal digit.
pub fn is_ascii_digit(c: char) -> (yes: bool)
    ensures
        yes == ascii_digit(c),
{
    '0' <= c && c <= '9'
}

/// Tells whether a character is of a class.
pub fn in_class(class: CharClass, c: char) -> (yes: bool)
    ensures
        yes == class.holds(c),
{
    match class {
        CharClass::Space => is_whitespace(c),
        CharClass::Word => is_alphanumeric(c) || c == '_',
        CharClass::Digit => is_ascii_digit(c),
        CharClass::Quoted => c != '\'',
    }
}

/// The keyword that an upper-cased word is, if it is one.
pub fn keyword_of(upper: &str) -> (token: Option<Token>)
    ensures
        match token {
            Some(t) => keyword(upper@) == Some(t@),
            None => keyword(upper@) is None,
        },
{
    if same_text(upper, "CREATE") {
        Some(Token::Create)
    } else if same_text(upper, "TABLE") {
        Some(Token::Table)
    } else if same_text(upper, "INSERT") {
        Some(Token::Insert)
    } else if same_text(upper, "INTO") {
        Some(Token::Into)
    } else if same_text(upper, "VALUES") {
        Some(Token::Values)
    } else if same_text(upper, "SELECT") {
        Some(Token::Select)
    } else if same_text(upper, "FROM") {
        Some(Token::From)
    } else if same_text(upper, "INT") {
        Some(Token::Int)
    } else if same_text(upper, "VARCHAR") {
        Some(Token::Varchar)
    } else {
        None
    }
}

/// The characters of a text, in order.
pub fn chars_of(text: &str) -> (chars: Vec<char>)
    ensures
        chars@ == text@,
{
    broadcast use vstd::string::group_string_axioms;

    let mut chars: Vec<char> = Vec::new();
    for c in it: text.chars()
        invariant
            it.seq() == text@,
            chars@ == it.seq().take(it.index() as int),
    {
        chars.push(c);
        assert(chars@ =~= text@.take(it.index() + 1));
    }
    assert(text@.take(text@.len() as int) =~= text@);
    chars
}

/// The lexer as a mathematical value: the input and the position reached.
pub struct LexerView {
    pub chars: Seq<char>,
    pub pos: int,
}

/// Cuts an input text into tokens.
pub struct Lexer {
    chars: Vec<char>,
    pos: usize,
}

impl View for Lexer {
    type V = LexerView;

    closed spec fn view(&self) -> LexerView {
        LexerView { chars: self.chars@, pos: self.pos as int }
    }
}

impl Lexer {
    #[verifier::type_invariant]
    spec fn inv(&self) -> bool {
        self.pos <= self.chars@.len()
    }

    /// A lexer at the start of `input`.
    pub fn new(input: &str) -> (lexer: Lexer)
        ensures
            lexer@.chars == input@,
            lexer@.pos == 0,
    {
        Lexer { chars: chars_of(input), pos: 0 }
    }

    /// The position reached, which is within the input.
    pub fn position(&self) -> (pos: usize)
        ensures
            pos == self@.pos,
            pos <= self@.chars.len(),
    {
        proof {
            use_type_invariant(self);
        }
        self.pos
    }

    /// Moves behind the run of characters of a class that starts at the
    /// position, appending them to `text`.
    fn read_run(&mut self, class: CharClass, text: &mut String)
        ensures
            final(self)@.chars == old(self)@.chars,
            final(self)@.pos == run_end(old(self)@.chars, old(self)@.pos, class),
            old(self)@.pos <= final(self)@.pos <= old(self)@.chars.len(),
            final(text)@ == old(text)@ + old(self)@.chars.subrange(
                old(self)@.pos,
                final(self)@.pos,
            ),
    {
        proof {
            use_type_invariant(&*self);
        }
        let ghost start = self.pos as int;
        let ghost before = text@;
        assert(text@ =~= before + self.chars@.subrange(start, start));
        while self.pos < self.chars.len() && in_class(class, self.chars[self.pos])
            invariant
                self.chars@ == old(self).chars@,
                0 <= start <= self.pos <= self.chars@.len(),
                run_end(self.chars@, self.pos as int, class) == run_end(self.chars@, start, class),
                text@ == before + self.chars@.subrange(start, self.pos as int),
            decreases self.chars@.len() - self.pos,
        {
            push_char(text, self.chars[self.pos]);
            self.pos = self.pos + 1;
            assert(text@ =~= before + self.chars@.subrange(start, self.pos as int));
        }
    }

    /// Reads the rest of a word whose first character, `first`, has been
    /// taken already: the letters, digits and underscores that follow.
    pub fn read_identifier(&mut self, first: char) -> (ident: String)
        ensures
            final(self)@.chars == old(self)@.chars,
            final(self)@.pos == run_end(old(self)@.chars, old(self)@.pos, CharClass::Word),
            old(self)@.pos <= final(self)@.pos <= old(self)@.chars.len(),
            ident@ == seq![first] + old(self)@.chars.subrange(old(self)@.pos, final(self)@.pos),
    {
        let mut ident = String::new();
        push_char(&mut ident, first);
        assert(ident@ =~= seq![first]);
        self.read_run(CharClass::Word, &mut ident);
        ident
    }

    /// Reads the rest of a numeral whose first character, `first`, has been
    /// taken already, and gives its value, or 0 where the text is no number
    /// that fits in an `i64`.
    pub fn read_number(&mut self, first: char) -> (number: i64)
        ensures
            final(self)@.chars == old(self)@.chars,
            final(self)@.pos == run_end(old(self)@.chars, old(self)@.pos, CharClass::Digit),
            old(self)@.pos <= final(self)@.pos <= old(self)@.chars.len(),
            number == number_value(
                seq![first] + old(self)@.chars.subrange(old(self)@.pos, final(self)@.pos),
            ),
    {
        let mut numeral = String::new();
        push_char(&mut numeral, first);
        assert(numeral@ =~= seq![first]);
        self.read_run(CharClass::Digit, &mut numeral);
        match parse_i64(numeral.as_str()) {
            Some(n) => n,
            None => 0,
        }
    }

    /// Reads a string whose opening quote has been taken already, up to and
    /// with the closing quote.
    fn read_string(&mut self) -> (text: Result<String, LexerError>)
        ensures
            final(self)@.chars == old(self)@.chars,
            ({
                let close = run_end(old(self)@.chars, old(self)@.pos, CharClass::Quoted);
                match text {
                    Ok(s) => {
                        &&& close < old(self)@.chars.len()
                        &&& s@ == old(self)@.chars.subrange(old(self)@.pos, close)
                        &&& final(self)@.pos == close + 1
                    },
                    Err(e) => {
                        &&& close == old(self)@.chars.len()
                        &&& e == LexerError::UnterminatedString
                        &&& final(self)@.pos == close
                    },
                }
            }),
    {
        let mut text = String::new();
        let ghost start = self.pos as int;
        self.read_run(CharClass::Quoted, &mut text);
        assert(text@ =~= self.chars@.subrange(start, self.pos as int));
        if self.pos < self.chars.len() {
            self.pos = self.pos + 1;
            Ok(text)
        } else {
            Err(LexerError::UnterminatedString)
        }
    }

    /// Moves over the white space at the position.
    fn skip_whitespace(&mut self)
        ensures
            final(self)@.chars == old(self)@.chars,
            final(self)@.pos == run_end(old(self)@.chars, old(self)@.pos, CharClass::Space),
            final(self)@.pos <= final(self)@.chars.len(),
    {
        let mut skipped = String::new();
        self.read_run(CharClass::Space, &mut skipped);
    }

    /// The next token, or `None` at the end of the input.
    pub fn next(&mut self) -> (token: Option<Result<Token, LexerError>>)
        ensures
            final(self)@.chars == old(self)@.chars,
            final(self)@.pos == lex(old(self)@.chars, old(self)@.pos).1,
            0 <= old(self)@.pos <= final(self)@.pos <= old(self)@.chars.len(),
            match token {
                Some(Ok(t)) => lex(old(self)@.chars, old(self)@.pos).0 == Some(
                    Ok::<TokenView, LexerError>(t@),
                ),
                Some(Err(e)) => lex(old(self)@.chars, old(self)@.pos).0 == Some(
                    Err::<TokenView, LexerError>(e),
                ),
                None => lex(old(self)@.chars, old(self)@.pos).0 is None,
            },
    {
        proof {
            use_type_invariant(&*self);
            lemma_lex_advances(self.chars@, self.pos as int);
        }
        self.skip_whitespace();
        if self.pos >= self.chars.len() {
            return None;
        }
        let c: char = self.chars[self.pos];
        let ghost start = self.pos as int;
        self.pos = self.pos + 1;
        let token = if c == '(' {
            Ok(Token::LParen)
        } else if c == ')' {
            Ok(Token::RParen)
        } else if c == ',' {
            Ok(Token::Comma)
        } else if c == ';' {
            Ok(Token::Semicolon)
        } else if c == '\'' {
            match self.read_string() {
                Ok(s) => Ok(Token::String(s)),
                Err(e) => Err(e),
            }
        } else if is_alphabetic(c) {
            let ident = self.read_identifier(c);
            assert(ident@ =~= self.chars@.subrange(start, self.pos as int));
            let upper = to_uppercase(ident.as_str());
            match keyword_of(upper.as_str()) {
                Some(k) => Ok(k),
                None => Ok(Token::Ident(ident)),
            }
        } else if is_ascii_digit(c) {
            let ghost after_first = self.pos as int;
            let n = self.read_number(c);
            assert(seq![c] + self.chars@.subrange(after_first, self.pos as int)
                =~= self.chars@.subrange(start, self.pos as int));
            Ok(Token::Integer(n))
        } else {
            Err(LexerError::InvalidCharacter(c))
        };
        Some(token)
    }

    /// The next token, without moving.
    pub fn peek(&mut self) -> (token: Option<Result<Token, LexerError>>)
        ensures
            final(self)@ == old(self)@,
            0 <= old(self)@.pos <= old(self)@.chars.len(),
            match token {
                Some(Ok(t)) => lex(old(self)@.chars, old(self)@.pos).0 == Some(
                    Ok::<TokenView, LexerError>(t@),
                ),
                Some(Err(e)) => lex(old(self)@.chars, old(self)@.pos).0 == Some(
                    Err::<TokenView, LexerError>(e),
                ),
                None => lex(old(self)@.chars, old(self)@.pos).0 is None,
            },
    {
        proof {
            use_type_invariant(&*self);
        }
        let saved: usize = self.pos;
        let token = self.next();
        self.pos = saved;
        token
    }
}

} // verus!

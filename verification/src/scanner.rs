//! Tokens and the scanner that produces them.

use vstd::prelude::*;
use vstd::slice::{slice_subrange, slice_to_vec};
use vstd::string::*;
use vstd::utf8::*;
use crate::grammar::{
    byte_chars, char_at, digits_end, find_char, is_alpha, is_alphanumeric, is_decimal_digit,
    keyword_from, keyword_kind, keyword_table, lemma_lex_advances, lex_at, lex_number,
    lex_string, lex_word, line_table, line_text, lines_from, numeral_end, plain, scan,
    scan_from, text_of, texts_of, without_cr, word_end, Step, Piece, ScanOutcome,
};
use crate::text::{decimal, decode_text, push_char, push_decimal, text_views};

verus! {

/// The kind of a token.
#[derive(PartialEq, Eq, Structural, Debug, Clone, Copy)]
pub enum TokenType {
    // Single-character tokens.
    LeftParen,
    RightParen,
    LeftBrace,
    RightBrace,
    LeftBracket,
    RightBracket,
    Comma,
    Dot,
    Minus,
    Plus,
    Semicolon,
    Slash,
    Star,
    // One or two character tokens.
    Bang,
    BangEqual,
    Equal,
    EqualEqual,
    Greater,
    GreaterEqual,
    Less,
    LessEqual,
    // Literals.
    Identifier,
    String,
    Number,
    // Keywords.
    And,
    Class,
    Else,
    False,
    Fun,
    For,
    If,
    Nil,
    Or,
    Print,
    Return,
    Super,
    This,
    True,
    Var,
    While,
    Lambda,
    Eof,
}

/// The payload of a literal token.
///
/// A number is carried as the decimal numeral that was scanned; it denotes a
/// 64-bit floating-point value, which the caller obtains by parsing the text.
#[derive(Debug, Clone)]
pub enum Literal {
    Identifier(String),
    Str(String),
    Number(String),
}

/// The mathematical value of a [`Literal`].
pub enum LiteralView {
    Identifier(Seq<char>),
    Str(Seq<char>),
    Number(Seq<char>),
}

impl View for Literal {
    type V = LiteralView;

    open spec fn view(&self) -> LiteralView {
        match self {
            Literal::Identifier(s) => LiteralView::Identifier(s@),
            Literal::Str(s) => LiteralView::Str(s@),
            Literal::Number(s) => LiteralView::Number(s@),
        }
    }
}

/// One lexical unit of the source.
#[derive(Debug, Clone)]
pub struct Token {
    pub t_type: TokenType,
    /// The bytes of the source that the token covers.
    pub lexeme: Vec<u8>,
    pub literal: Option<Literal>,
    /// Line of the token, counted from 1.
    pub line: usize,
    /// Column counter when the token was completed.
    pub col: usize,
}

/// The mathematical value of a [`Token`].
pub struct TokenView {
    pub t_type: TokenType,
    pub lexeme: Seq<u8>,
    pub literal: Option<LiteralView>,
    pub line: nat,
    pub col: nat,
}

impl View for Token {
    type V = TokenView;

    open spec fn view(&self) -> TokenView {
        TokenView {
            t_type: self.t_type,
            lexeme: self.lexeme@,
            literal: match self.literal {
                Some(l) => Some(l@),
                None => None,
            },
            line: self.line as nat,
            col: self.col as nat,
        }
    }
}

/// The lexical error that ends a scan.
#[derive(Debug, Clone)]
pub struct Error {
    pub info: String,
    pub line: usize,
    pub col: usize,
    /// Text of the source line on which the error was found.
    pub line_text: String,
}

/// The mathematical value of an [`Error`].
pub struct ErrorView {
    pub info: Seq<char>,
    pub line: nat,
    pub col: nat,
    pub line_text: Seq<char>,
}

/// The diagnostic for an error: the message, the source line, and the
/// position as line and column.
pub open spec fn diagnostic(error: ErrorView) -> Seq<char> {
    "[ERROR] - "@ + error.info + " \n "@ + error.line_text + " \n at "@ + decimal(error.line) + ":"@
        + decimal(error.col) + "(line:col)"@
}

impl Error {
    /// The diagnostic that a caller shows for this error.
    pub fn diagnostic(&self) -> (text: String)
        ensures
            text@ == diagnostic(self@),
    {
        let mut text = "[ERROR] - ".to_owned();
        text.append(self.info.as_str());
        text.append(" \n ");
        text.append(self.line_text.as_str());
        text.append(" \n at ");
        push_decimal(&mut text, self.line);
        text.append(":");
        push_decimal(&mut text, self.col);
        text.append("(line:col)");
        text
    }
}

impl View for Error {
    type V = ErrorView;

    open spec fn view(&self) -> ErrorView {
        ErrorView {
            info: self.info@,
            line: self.line as nat,
            col: self.col as nat,
            line_text: self.line_text@,
        }
    }
}

/// The views of the tokens, in order.
pub open spec fn token_views(tokens: Seq<Token>) -> Seq<TokenView> {
    tokens.map_values(|t: Token| t@)
}

/// The view of an optional error.
pub open spec fn error_view(err: Option<Error>) -> Option<ErrorView> {
    match err {
        Some(e) => Some(e@),
        None => None,
    }
}

/// The view of an optional literal.
pub open spec fn literal_view(literal: Option<Literal>) -> Option<LiteralView> {
    match literal {
        Some(l) => Some(l@),
        None => None,
    }
}

/// The words and kinds of a keyword table.
pub open spec fn keyword_views(table: Seq<(String, TokenType)>) -> Seq<(Seq<char>, TokenType)> {
    table.map_values(|k: (String, TokenType)| (k.0@, k.1))
}

/// The state of a scan.
#[derive(Debug)]
pub struct Scanner {
    source: Vec<u8>,
    tokens: Vec<Token>,
    err: Option<Error>,
    /// Offset at which the token that is being recognised starts.
    start: usize,
    /// Offset of the next byte to read.
    current: usize,
    /// Number of line breaks passed; the current line is one more.
    line_breaks: usize,
    col: usize,
    line_string: Vec<String>,
    keywords: Vec<(String, TokenType)>,
}

/// The mathematical value of a [`Scanner`].
pub struct ScannerView {
    pub source: Seq<u8>,
    pub tokens: Seq<TokenView>,
    pub err: Option<ErrorView>,
    pub start: nat,
    pub current: nat,
    /// Current line, counted from 1.
    pub line: nat,
    pub col: nat,
    /// Text of each source line, for error display.
    pub lines: Seq<Seq<char>>,
}

impl ScannerView {
    /// The state before the first byte of `source` is read.
    pub open spec fn fresh(source: Seq<u8>) -> ScannerView {
        ScannerView {
            source,
            tokens: Seq::empty(),
            err: None,
            start: 0,
            current: 0,
            line: 1,
            col: 0,
            lines: line_table(source),
        }
    }

    /// The state after the scanner has taken in `found`, a piece that starts
    /// at `self.start` and ends at or after `self.current`.
    pub open spec fn emit(self, found: Step) -> ScannerView {
        let col = (self.col + found.end - self.current) as nat;
        let current = found.end as nat;
        match found.piece {
            Piece::Blank => ScannerView { current, col, ..self },
            Piece::LineBreak => ScannerView { current, line: self.line + 1, col: 0, ..self },
            Piece::Fault { info } => ScannerView {
                current,
                col,
                err: Some(
                    ErrorView {
                        info,
                        line: self.line,
                        col,
                        line_text: line_text(self.lines, self.line),
                    },
                ),
                ..self
            },
            Piece::Token { kind, literal } => ScannerView {
                current,
                col,
                tokens: self.tokens.push(
                    TokenView {
                        t_type: kind,
                        lexeme: self.source.subrange(self.start as int, found.end),
                        literal,
                        line: self.line,
                        col,
                    },
                ),
                ..self
            },
        }
    }
}

impl View for Scanner {
    type V = ScannerView;

    closed spec fn view(&self) -> ScannerView {
        ScannerView {
            source: self.source@,
            tokens: token_views(self.tokens@),
            err: error_view(self.err),
            start: self.start as nat,
            current: self.current as nat,
            line: (self.line_breaks + 1) as nat,
            col: self.col as nat,
            lines: text_views(self.line_string@),
        }
    }
}

/// Copies the bytes of `bytes` from `from` up to `to`.
fn copy_range(bytes: &Vec<u8>, from: usize, to: usize) -> (part: Vec<u8>)
    requires
        from <= to <= bytes.len(),
    ensures
        part@ == bytes@.subrange(from as int, to as int),
{
    slice_to_vec(slice_subrange(bytes.as_slice(), from, to))
}

/// The text that `bytes` encode, or the empty text where they encode none.
fn text_or_empty(bytes: Vec<u8>) -> (text: String)
    ensures
        text@ == text_of(bytes@),
{
    match decode_text(bytes) {
        Some(text) => text,
        None => String::new(),
    }
}

/// Splits the source into the text of its lines.
pub fn split_lines(source: &Vec<u8>) -> (lines: Vec<String>)
    ensures
        text_views(lines@) == line_table(source@),
{
    let mut lines: Vec<String> = Vec::new();
    let mut from: usize = 0;
    while from < source.len()
        invariant
            from <= source.len(),
            line_table(source@) == text_views(lines@) + texts_of(lines_from(source@, from as int)),
        decreases source.len() - from,
    {
        let mut end: usize = from;
        while end < source.len() && source[end] as char != '\n'
            invariant
                from <= end <= source.len(),
                find_char(source@, end as int, '\n') == find_char(source@, from as int, '\n'),
            decreases source.len() - end,
        {
            end = end + 1;
        }
        let ghost before = lines@;
        if end >= source.len() {
            let line = copy_range(source, from, end);
            lines.push(text_or_empty(line));
            proof {
                assert(lines_from(source@, end as int) == Seq::<Seq<u8>>::empty());
                assert(text_views(lines@) == text_views(before) + texts_of(
                    lines_from(source@, from as int),
                ));
            }
            from = end;
        } else {
            let mut stop: usize = end;
            if stop > from && source[stop - 1] as char == '\r' {
                stop = stop - 1;
            }
            let line = copy_range(source, from, stop);
            proof {
                assert(line@ == without_cr(source@.subrange(from as int, end as int)));
            }
            lines.push(text_or_empty(line));
            proof {
                assert(text_views(lines@) + texts_of(lines_from(source@, end + 1)) == text_views(
                    before,
                ) + texts_of(lines_from(source@, from as int)));
            }
            from = end + 1;
        }
    }
    proof {
        assert(text_views(lines@) + texts_of(Seq::empty()) == text_views(lines@));
    }
    lines
}

impl Default for Scanner {
    /// A scanner with the keyword table and nothing to scan.
    fn default() -> (scanner: Self)
        ensures
            scanner.wf(),
            scanner@ == ScannerView::fresh(Seq::empty()),
    {
        let mut keywords: Vec<(String, TokenType)> = Vec::new();
        keywords.push(("and".to_owned(), TokenType::And));
        keywords.push(("class".to_owned(), TokenType::Class));
        keywords.push(("else".to_owned(), TokenType::Else));
        keywords.push(("false".to_owned(), TokenType::False));
        keywords.push(("for".to_owned(), TokenType::For));
        keywords.push(("fun".to_owned(), TokenType::Fun));
        keywords.push(("if".to_owned(), TokenType::If));
        keywords.push(("nil".to_owned(), TokenType::Nil));
        keywords.push(("or".to_owned(), TokenType::Or));
        keywords.push(("print".to_owned(), TokenType::Print));
        keywords.push(("return".to_owned(), TokenType::Return));
        keywords.push(("super".to_owned(), TokenType::Super));
        keywords.push(("this".to_owned(), TokenType::This));
        keywords.push(("true".to_owned(), TokenType::True));
        keywords.push(("var".to_owned(), TokenType::Var));
        keywords.push(("while".to_owned(), TokenType::While));
        keywords.push(("lambda".to_owned(), TokenType::Lambda));
        let scanner = Scanner {
            source: Vec::new(),
            tokens: Vec::new(),
            err: None,
            start: 0,
            current: 0,
            line_breaks: 0,
            col: 0,
            keywords,
            line_string: Vec::new(),
        };
        proof {
            assert(keyword_views(scanner.keywords@) == keyword_table());
            assert(scanner@.tokens == Seq::<TokenView>::empty());
            assert(scanner@.lines == line_table(Seq::empty()));
        }
        scanner
    }
}

impl Scanner {
    /// The state is consistent: the offsets lie in the source in order, the
    /// counters are no larger than the number of bytes read, and the keyword
    /// table holds the reserved words.
    pub closed spec fn wf(&self) -> bool {
        &&& self.start <= self.current <= self.source.len()
        &&& self.col <= self.current
        &&& self.line_breaks <= self.current
        &&& keyword_views(self.keywords@) == keyword_table()
    }

    /// The source that was scanned last.
    pub fn source(&self) -> (source: &Vec<u8>)
        ensures
            source@ == self@.source,
    {
        &self.source
    }

    /// The tokens found so far, in source order.
    pub fn tokens(&self) -> (tokens: &Vec<Token>)
        ensures
            token_views(tokens@) == self@.tokens,
    {
        &self.tokens
    }

    /// The error that ended the scan, if one did.
    pub fn error(&self) -> (err: &Option<Error>)
        ensures
            error_view(*err) == self@.err,
    {
        &self.err
    }

    /// Whether `c` is one of the digits `0` to `9`.
    pub fn is_decimal_digit(c: char) -> (b: bool)
        ensures
            b == is_decimal_digit(c),
    {
        '0' <= c && c <= '9'
    }

    /// Whether `c` is an alphabetic character among the first 256 code points.
    pub fn is_alpha(c: char) -> (b: bool)
        ensures
            b == is_alpha(c),
    {
        ('A' <= c && c <= 'Z') || ('a' <= c && c <= 'z') || c == '\u{aa}' || c == '\u{b5}' || c
            == '\u{ba}' || ('\u{c0}' <= c && c <= '\u{d6}') || ('\u{d8}' <= c && c <= '\u{f6}') || (
        '\u{f8}' <= c && c <= '\u{ff}')
    }

    /// Whether `c` may continue an identifier.
    pub fn is_alphanumeric(c: char) -> (b: bool)
        ensures
            b == is_alphanumeric(c),
    {
        Scanner::is_alpha(c) || Scanner::is_decimal_digit(c)
    }

    /// Whether every byte of the source has been read.
    pub fn is_at_end(&self) -> (b: bool)
        ensures
            b == (self@.current >= self@.source.len()),
    {
        self.current >= self.source.len()
    }

    /// Whether the scan is over: an error was found or the source is read.
    pub fn done(&self) -> (b: bool)
        ensures
            b == (self@.err is Some || self@.current >= self@.source.len()),
    {
        self.err.is_some() || self.is_at_end()
    }

    /// The character read last; `None` once the scan is over.
    pub fn cur_char(&self) -> (c: Option<char>)
        requires
            self.wf(),
            self@.current > 0 || self@.err is Some || self@.current >= self@.source.len(),
        ensures
            c == if self@.err is Some || self@.current >= self@.source.len() {
                None
            } else {
                Some(char_at(self@.source, self@.current - 1))
            },
    {
        if self.done() {
            None
        } else {
            Some(self.source[self.current - 1] as char)
        }
    }

    /// Reads the next character and moves past it.
    pub fn advance(&mut self) -> (c: char)
        requires
            old(self).wf(),
            old(self)@.current < old(self)@.source.len(),
        ensures
            final(self).wf(),
            c == char_at(old(self)@.source, old(self)@.current as int),
            final(self)@ == (ScannerView {
                current: old(self)@.current + 1,
                col: old(self)@.col + 1,
                ..old(self)@
            }),
    {
        self.current = self.current + 1;
        self.col = self.col + 1;
        self.source[self.current - 1] as char
    }

    /// The next character, which stays unread; NUL at the end of the source.
    fn peek(&self) -> (c: char)
        ensures
            c == char_at(self@.source, self@.current as int),
    {
        if self.is_at_end() {
            '\0'
        } else {
            self.source[self.current] as char
        }
    }

    /// The character after the next, which stays unread; NUL where the
    /// source has none.
    fn peek_next(&self) -> (c: char)
        ensures
            c == char_at(self@.source, self@.current as int + 1),
    {
        let len: usize = self.source.len();
        if self.current >= len || self.current + 1 >= len {
            '\0'
        } else {
            self.source[self.current + 1] as char
        }
    }

    /// Moves past the next character if it is `c`.
    fn matches(&mut self, c: char) -> (matched: bool)
        requires
            old(self).wf(),
        ensures
            final(self).wf(),
            matched == (old(self)@.current < old(self)@.source.len() && char_at(
                old(self)@.source,
                old(self)@.current as int,
            ) == c),
            final(self)@ == if matched {
                ScannerView {
                    current: old(self)@.current + 1,
                    col: old(self)@.col + 1,
                    ..old(self)@
                }
            } else {
                old(self)@
            },
    {
        if self.is_at_end() {
            return false;
        } else if self.peek() != c {
            return false;
        }
        self.col = self.col + 1;
        self.current = self.current + 1;
        true
    }

    /// The token kind of a reserved word; `None` for any other text.
    fn keyword(&self, text: &String) -> (kind: Option<TokenType>)
        requires
            self.wf(),
        ensures
            kind == keyword_kind(text@),
    {
        let mut i: usize = 0;
        while i < self.keywords.len()
            invariant
                i <= self.keywords.len(),
                keyword_views(self.keywords@) == keyword_table(),
                keyword_kind(text@) == keyword_from(keyword_table(), text@, i as int),
            decreases self.keywords.len() - i,
        {
            assert(keyword_views(self.keywords@)[i as int] == (
                self.keywords@[i as int].0@,
                self.keywords@[i as int].1,
            ));
            if self.keywords[i].0 == *text {
                return Some(self.keywords[i].1);
            }
            i = i + 1;
        }
        None
    }

    /// Scans the rest of a string literal whose opening quote was read.
    fn string(&mut self)
        requires
            old(self).wf(),
            old(self)@.current == old(self)@.start + 1,
            old(self)@.line <= old(self)@.current,
            char_at(old(self)@.source, old(self)@.start as int) == '"',
        ensures
            final(self).wf(),
            final(self)@ == old(self)@.emit(lex_string(old(self)@.source, old(self)@.start as int)),
    {
        let ghost src = self@.source;
        let ghost begin = self@;
        while self.peek() != '"' && !self.is_at_end()
            invariant
                self.wf(),
                src == begin.source,
                self@.current > self@.start,
                self@ == (ScannerView { current: self@.current, col: self@.col, ..begin }),
                self@.col - self@.current == begin.col - begin.current,
                find_char(src, self@.current as int, '"') == find_char(
                    src,
                    begin.start as int + 1,
                    '"',
                ),
            decreases self@.source.len() - self@.current,
        {
            self.advance();
        }
        if self.is_at_end() {
            self.set_error("Unterminated string found".to_owned());
            return ;
        }
        self.advance();
        let body = copy_range(&self.source, self.start + 1, self.current - 1);
        match decode_text(body) {
            Some(text) => self.add_token_literal(TokenType::String, Some(Literal::Str(text))),
            None => self.set_error("Token is not valid UTF-8".to_owned()),
        }
    }

    /// Scans the rest of a number whose first digit was read.
    fn number(&mut self)
        requires
            old(self).wf(),
            old(self)@.current == old(self)@.start + 1,
            old(self)@.line <= old(self)@.current,
            is_decimal_digit(char_at(old(self)@.source, old(self)@.start as int)),
        ensures
            final(self).wf(),
            final(self)@ == old(self)@.emit(lex_number(old(self)@.source, old(self)@.start as int)),
    {
        let ghost src = self@.source;
        let ghost begin = self@;
        while Scanner::is_decimal_digit(self.peek())
            invariant
                self.wf(),
                src == begin.source,
                self@.current > self@.start,
                self@ == (ScannerView { current: self@.current, col: self@.col, ..begin }),
                self@.col - self@.current == begin.col - begin.current,
                digits_end(src, self@.current as int) == digits_end(src, begin.start as int),
            decreases self@.source.len() - self@.current,
        {
            self.advance();
        }
        if self.peek() == '.' && Scanner::is_decimal_digit(self.peek_next()) {
            self.advance();
            while Scanner::is_decimal_digit(self.peek())
                invariant
                    self.wf(),
                    src == begin.source,
                    self@.current > self@.start,
                    self@ == (ScannerView { current: self@.current, col: self@.col, ..begin }),
                    self@.col - self@.current == begin.col - begin.current,
                    digits_end(src, self@.current as int) == numeral_end(src, begin.start as int),
                decreases self@.source.len() - self@.current,
            {
                self.advance();
            }
        }
        assert(self@.current == numeral_end(src, begin.start as int));
        if !self.is_at_end() {
            let mut info = "Invalid string at the end of the number: `".to_owned();
            push_char(&mut info, self.peek());
            push_char(&mut info, '`');
            self.set_error(info);
            return ;
        }
        let mut text = String::new();
        let mut i: usize = self.start;
        while i < self.current
            invariant
                self.wf(),
                src == begin.source,
                self@ == (ScannerView { current: self@.current, col: self@.col, ..begin }),
                self@.start <= i <= self@.current,
                text@ == byte_chars(src.subrange(self@.start as int, i as int)),
            decreases self@.current - i,
        {
            push_char(&mut text, self.source[i] as char);
            i = i + 1;
            proof {
                assert(text@ == byte_chars(src.subrange(self@.start as int, i as int)));
            }
        }
        self.add_token_literal(TokenType::Number, Some(Literal::Number(text)))
    }

    /// Scans the rest of a word whose first character was read: a reserved
    /// word or an identifier.
    fn identifier(&mut self)
        requires
            old(self).wf(),
            old(self)@.current == old(self)@.start + 1,
            old(self)@.line <= old(self)@.current,
            is_alpha(char_at(old(self)@.source, old(self)@.start as int)),
        ensures
            final(self).wf(),
            final(self)@ == old(self)@.emit(lex_word(old(self)@.source, old(self)@.start as int)),
    {
        let ghost src = self@.source;
        let ghost begin = self@;
        while Scanner::is_alphanumeric(self.peek())
            invariant
                self.wf(),
                src == begin.source,
                self@.current > self@.start,
                self@ == (ScannerView { current: self@.current, col: self@.col, ..begin }),
                self@.col - self@.current == begin.col - begin.current,
                word_end(src, self@.current as int) == word_end(src, begin.start as int),
            decreases self@.source.len() - self@.current,
        {
            self.advance();
        }
        let bytes = copy_range(&self.source, self.start, self.current);
        match decode_text(bytes) {
            Some(token_string) => {
                match self.keyword(&token_string) {
                    Some(token_type) => self.add_token(token_type),
                    None => self.add_token_literal(
                        TokenType::Identifier,
                        Some(Literal::Identifier(token_string)),
                    ),
                }
            },
            None => self.set_error("Token is not valid UTF-8".to_owned()),
        }
    }

    /// Scans one piece of the source: a token, a blank, a line break or an
    /// error.
    fn scan_token(&mut self)
        requires
            old(self).wf(),
            old(self)@.start == old(self)@.current,
            old(self)@.current < old(self)@.source.len(),
            old(self)@.line <= old(self)@.current + 1,
        ensures
            final(self).wf(),
            final(self)@ == old(self)@.emit(lex_at(old(self)@.source, old(self)@.current as int)),
            final(self)@.line <= final(self)@.current + 1,
    {
        let ghost begin = self@;
        let c = self.advance();
        match c {
            '(' => self.add_token(TokenType::LeftParen),
            ')' => self.add_token(TokenType::RightParen),
            '{' => self.add_token(TokenType::LeftBrace),
            '}' => self.add_token(TokenType::RightBrace),
            '[' => self.add_token(TokenType::LeftBracket),
            ']' => self.add_token(TokenType::RightBracket),
            ',' => self.add_token(TokenType::Comma),
            '.' => self.add_token(TokenType::Dot),
            '-' => self.add_token(TokenType::Minus),
            '+' => self.add_token(TokenType::Plus),
            ';' => self.add_token(TokenType::Semicolon),
            '*' => self.add_token(TokenType::Star),
            '!' => {
                if self.matches('=') {
                    self.add_token(TokenType::BangEqual)
                } else {
                    self.add_token(TokenType::Bang)
                }
            },
            '=' => {
                if self.matches('=') {
                    self.add_token(TokenType::EqualEqual)
                } else {
                    self.add_token(TokenType::Equal)
                }
            },
            '<' => {
                if self.matches('=') {
                    self.add_token(TokenType::LessEqual)
                } else {
                    self.add_token(TokenType::Less)
                }
            },
            '>' => {
                if self.matches('=') {
                    self.add_token(TokenType::GreaterEqual)
                } else {
                    self.add_token(TokenType::Greater)
                }
            },
            '/' => {
                if self.matches('/') {
                    while self.peek() != '\n' && !self.is_at_end()
                        invariant
                            self.wf(),
                            self@.current > self@.start,
                            self@ == (ScannerView {
                                current: self@.current,
                                col: self@.col,
                                ..begin
                            }),
                            self@.col - self@.current == begin.col - begin.current,
                            find_char(begin.source, self@.current as int, '\n') == find_char(
                                begin.source,
                                begin.start as int + 2,
                                '\n',
                            ),
                        decreases self@.source.len() - self@.current,
                    {
                        self.advance();
                    }
                } else {
                    self.add_token(TokenType::Slash)
                }
            },
            ' ' | '\r' | '\t' => {},
            '\n' => {
                self.line_breaks = self.line_breaks + 1;
                self.col = 0;
            },
            '"' => self.string(),
            _ => {
                if Scanner::is_decimal_digit(c) {
                    self.number()
                } else if Scanner::is_alpha(c) {
                    self.identifier()
                } else {
                    let mut info = "Scanner can't handle: ".to_owned();
                    push_char(&mut info, c);
                    self.set_error(info)
                }
            },
        }
    }

    /// Scans `input` from its start. Afterwards the scanner holds the tokens
    /// in source order and, where the scan met a lexical error, that error;
    /// no token follows the error.
    pub fn scan_tokens(&mut self, input: String)
        requires
            old(self).wf(),
        ensures
            final(self).wf(),
            final(self)@.source == encode_utf8(input@),
            final(self)@.lines == line_table(encode_utf8(input@)),
            final(self)@.tokens == scan(encode_utf8(input@)).tokens,
            final(self)@.err == scan(encode_utf8(input@)).error,
            final(self)@.err is Some || final(self)@.current == final(self)@.source.len(),
    {
        self.source = input.as_str().as_bytes_vec();
        self.line_string = split_lines(&self.source);
        self.tokens = Vec::new();
        self.err = None;
        self.start = 0;
        self.current = 0;
        self.line_breaks = 0;
        self.col = 0;
        let ghost src = self@.source;
        assert(self@.tokens == Seq::<TokenView>::empty());
        assert(self@.tokens + scan(src).tokens == scan(src).tokens);
        while !self.done()
            invariant
                self.wf(),
                self@.source == src,
                self@.lines == line_table(src),
                self@.line <= self@.current + 1,
                match self@.err {
                    Some(e) => scan(src) == (ScanOutcome { tokens: self@.tokens, error: Some(e) }),
                    None => {
                        let rest = scan_from(src, self@.current as int, self@.line, self@.col);
                        scan(src) == (ScanOutcome {
                            tokens: self@.tokens + rest.tokens,
                            error: rest.error,
                        })
                    },
                },
            decreases src.len() - self@.current,
        {
            self.start = self.current;
            let ghost before = self@;
            proof {
                lemma_lex_advances(src, before.current as int);
            }
            self.scan_token();
            proof {
                let found = lex_at(src, before.current as int);
                let rest = scan_from(src, before.current as int, before.line, before.col);
                match found.piece {
                    Piece::Token { kind, literal } => {
                        let next = scan_from(src, found.end, self@.line, self@.col);
                        assert(self@.tokens + next.tokens == before.tokens + rest.tokens);
                    },
                    Piece::Fault { info } => {
                        assert(before.tokens + rest.tokens == before.tokens);
                    },
                    _ => {},
                }
            }
        }
        proof {
            if self@.err is None {
                assert(self@.tokens + Seq::<TokenView>::empty() == self@.tokens);
            }
        }
    }

    /// The text of the current line, if the line table has it.
    fn get_current_line(&self) -> (text: Option<&String>)
        ensures
            match text {
                Some(t) => self@.line <= self@.lines.len() && t@ == self@.lines[self@.line - 1],
                None => self@.line > self@.lines.len(),
            },
    {
        if self.line_breaks < self.line_string.len() {
            Some(&self.line_string[self.line_breaks])
        } else {
            None
        }
    }

    /// Ends the scan with an error at the current position.
    fn set_error(&mut self, error_string: String)
        requires
            old(self).wf(),
            old(self)@.line <= old(self)@.current,
        ensures
            final(self).wf(),
            final(self)@ == old(self)@.emit(
                Step {
                    end: old(self)@.current as int,
                    piece: Piece::Fault { info: error_string@ },
                },
            ),
    {
        let current_line_text = match self.get_current_line() {
            Some(current_line) => current_line.clone(),
            None => String::new(),
        };
        let error = Error {
            info: error_string,
            line: self.line_breaks + 1,
            col: self.col,
            line_text: current_line_text,
        };
        self.err = Some(error);
    }

    /// Emits a token without payload that ends at the current position.
    fn add_token(&mut self, token_type: TokenType)
        requires
            old(self).wf(),
            old(self)@.line <= old(self)@.current,
        ensures
            final(self).wf(),
            final(self)@ == old(self)@.emit(plain(old(self)@.current as int, token_type)),
    {
        self.add_token_literal(token_type, None)
    }

    /// Emits a token that ends at the current position.
    fn add_token_literal(&mut self, token_type: TokenType, literal: Option<Literal>)
        requires
            old(self).wf(),
            old(self)@.line <= old(self)@.current,
        ensures
            final(self).wf(),
            final(self)@ == old(self)@.emit(
                Step {
                    end: old(self)@.current as int,
                    piece: Piece::Token { kind: token_type, literal: literal_view(literal) },
                },
            ),
    {
        let text = copy_range(&self.source, self.start, self.current);
        let token = Token {
            t_type: token_type,
            lexeme: text,
            literal,
            line: self.line_breaks + 1,
            col: self.col,
        };
        let ghost before = self.tokens@;
        self.tokens.push(token);
        proof {
            assert(token_views(self.tokens@) == token_views(before).push(token@));
        }
    }
}

/// Scans `input` and returns its tokens in source order together with the
/// lexical error that ended the scan, if one did.
pub fn scan_text(input: String) -> (outcome: (Vec<Token>, Option<Error>))
    ensures
        token_views(outcome.0@) == scan(encode_utf8(input@)).tokens,
        error_view(outcome.1) == scan(encode_utf8(input@)).error,
{
    let mut scanner = Scanner::default();
    scanner.scan_tokens(input);
    (scanner.tokens, scanner.err)
}

} // verus!

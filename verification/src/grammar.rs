//! The lexical rules, stated over the bytes of the source.
//!
//! Each byte is read as the character with the same code. [`lex_at`] says
//! what stands at an offset, [`scan_from`] what a scan yields from an offset
//! on, and [`line_table`] which text belongs to which line.

use vstd::prelude::*;
use vstd::utf8::*;
use crate::scanner::{ErrorView, LiteralView, TokenType, TokenView};

verus! {

/// `c` is one of the digits `0` to `9`.
pub open spec fn is_decimal_digit(c: char) -> bool {
    '0' <= c <= '9'
}

/// `c` is an alphabetic character among the first 256 code points.
pub open spec fn is_alpha(c: char) -> bool {
    ||| 'A' <= c <= 'Z'
    ||| 'a' <= c <= 'z'
    ||| c == '\u{aa}'
    ||| c == '\u{b5}'
    ||| c == '\u{ba}'
    ||| '\u{c0}' <= c <= '\u{d6}'
    ||| '\u{d8}' <= c <= '\u{f6}'
    ||| '\u{f8}' <= c <= '\u{ff}'
}

/// `c` may continue an identifier.
pub open spec fn is_alphanumeric(c: char) -> bool {
    is_alpha(c) || is_decimal_digit(c)
}

/// The character at `at`, or NUL past the end.
pub open spec fn char_at(src: Seq<u8>, at: int) -> char {
    if 0 <= at < src.len() {
        src[at] as char
    } else {
        '\0'
    }
}

/// The bytes read as characters, one for one.
pub open spec fn byte_chars(bytes: Seq<u8>) -> Seq<char> {
    Seq::new(bytes.len(), |i: int| bytes[i] as char)
}

/// First offset from `from` on that holds no digit.
pub open spec fn digits_end(src: Seq<u8>, from: int) -> int
    decreases src.len() - from,
{
    if 0 <= from < src.len() && is_decimal_digit(src[from] as char) {
        digits_end(src, from + 1)
    } else {
        from
    }
}

/// First offset from `from` on that holds no identifier character.
pub open spec fn word_end(src: Seq<u8>, from: int) -> int
    decreases src.len() - from,
{
    if 0 <= from < src.len() && is_alphanumeric(src[from] as char) {
        word_end(src, from + 1)
    } else {
        from
    }
}

/// First offset from `from` on that holds `stop`, or the length of `src`.
pub open spec fn find_char(src: Seq<u8>, from: int, stop: char) -> int
    decreases src.len() - from,
{
    if 0 <= from < src.len() && src[from] as char != stop {
        find_char(src, from + 1, stop)
    } else {
        from
    }
}

/// The reserved words with their token kinds.
pub open spec fn keyword_table() -> Seq<(Seq<char>, TokenType)> {
    seq![
        ("and"@, TokenType::And),
        ("class"@, TokenType::Class),
        ("else"@, TokenType::Else),
        ("false"@, TokenType::False),
        ("for"@, TokenType::For),
        ("fun"@, TokenType::Fun),
        ("if"@, TokenType::If),
        ("nil"@, TokenType::Nil),
        ("or"@, TokenType::Or),
        ("print"@, TokenType::Print),
        ("return"@, TokenType::Return),
        ("super"@, TokenType::Super),
        ("this"@, TokenType::This),
        ("true"@, TokenType::True),
        ("var"@, TokenType::Var),
        ("while"@, TokenType::While),
        ("lambda"@, TokenType::Lambda),
    ]
}

/// Kind of the first entry from `from` on whose word is `text`.
pub open spec fn keyword_from(table: Seq<(Seq<char>, TokenType)>, text: Seq<char>, from: int) -> Option<
    TokenType,
>
    decreases table.len() - from,
{
    if from < 0 || from >= table.len() {
        None
    } else if table[from].0 == text {
        Some(table[from].1)
    } else {
        keyword_from(table, text, from + 1)
    }
}

/// The token kind of a reserved word; `None` for any other text.
pub open spec fn keyword_kind(text: Seq<char>) -> Option<TokenType> {
    keyword_from(keyword_table(), text, 0)
}

/// What one step of the scanner finds.
pub enum Piece {
    /// A token of the given kind and payload.
    Token { kind: TokenType, literal: Option<LiteralView> },
    /// Whitespace or a comment: nothing is emitted.
    Blank,
    /// A newline: the line counter goes up and the column counter to zero.
    LineBreak,
    /// A lexical error with its message.
    Fault { info: Seq<char> },
}

/// A piece together with the offset at which the scanner stands after it.
pub struct Step {
    pub end: int,
    pub piece: Piece,
}

/// A token without payload that ends at `end`.
pub open spec fn plain(end: int, kind: TokenType) -> Step {
    Step { end, piece: Piece::Token { kind, literal: None } }
}

/// An operator that a following `=` extends.
pub open spec fn with_equal(src: Seq<u8>, start: int, long: TokenType, short: TokenType) -> Step {
    if char_at(src, start + 1) == '=' {
        plain(start + 2, long)
    } else {
        plain(start + 1, short)
    }
}

/// A slash: the start of a comment that runs to the end of the line, or the
/// division operator.
pub open spec fn lex_slash(src: Seq<u8>, start: int) -> Step {
    if char_at(src, start + 1) == '/' {
        Step { end: find_char(src, start + 2, '\n'), piece: Piece::Blank }
    } else {
        plain(start + 1, TokenType::Slash)
    }
}

/// The message for a string literal that the source ends in.
pub open spec fn unterminated_string() -> Seq<char> {
    "Unterminated string found"@
}

/// The message for a token whose bytes encode no text.
pub open spec fn invalid_encoding() -> Seq<char> {
    "Token is not valid UTF-8"@
}

/// The message for a character that starts no token.
pub open spec fn unexpected_char(c: char) -> Seq<char> {
    "Scanner can't handle: "@.push(c)
}

/// The message for a number that is followed by the character `c`.
pub open spec fn invalid_number_end(c: char) -> Seq<char> {
    "Invalid string at the end of the number: `"@.push(c).push('`')
}

/// A string literal that opens at `start`: it runs to the next `"`, may span
/// lines, and has no escapes.
pub open spec fn lex_string(src: Seq<u8>, start: int) -> Step {
    let close = find_char(src, start + 1, '"');
    let body = src.subrange(start + 1, close);
    if close >= src.len() {
        Step { end: src.len() as int, piece: Piece::Fault { info: unterminated_string() } }
    } else if !valid_utf8(body) {
        Step { end: close + 1, piece: Piece::Fault { info: invalid_encoding() } }
    } else {
        Step {
            end: close + 1,
            piece: Piece::Token {
                kind: TokenType::String,
                literal: Some(LiteralView::Str(decode_utf8(body))),
            },
        }
    }
}

/// Offset at which the numeral that starts at `start` ends: after its digits
/// and, where a dot and a digit follow them, after the digits of the fraction.
pub open spec fn numeral_end(src: Seq<u8>, start: int) -> int {
    let whole = digits_end(src, start);
    if char_at(src, whole) == '.' && is_decimal_digit(char_at(src, whole + 1)) {
        digits_end(src, whole + 1)
    } else {
        whole
    }
}

/// A number that starts at `start`. Only the end of the input may follow it.
pub open spec fn lex_number(src: Seq<u8>, start: int) -> Step {
    let end = numeral_end(src, start);
    if end < src.len() {
        Step { end, piece: Piece::Fault { info: invalid_number_end(char_at(src, end)) } }
    } else {
        Step {
            end,
            piece: Piece::Token {
                kind: TokenType::Number,
                literal: Some(LiteralView::Number(byte_chars(src.subrange(start, end)))),
            },
        }
    }
}

/// A word that starts at `start`: a reserved word or an identifier.
pub open spec fn lex_word(src: Seq<u8>, start: int) -> Step {
    let end = word_end(src, start);
    let bytes = src.subrange(start, end);
    if !valid_utf8(bytes) {
        Step { end, piece: Piece::Fault { info: invalid_encoding() } }
    } else {
        match keyword_kind(decode_utf8(bytes)) {
            Some(kind) => plain(end, kind),
            None => Step {
                end,
                piece: Piece::Token {
                    kind: TokenType::Identifier,
                    literal: Some(LiteralView::Identifier(decode_utf8(bytes))),
                },
            },
        }
    }
}

/// What stands at offset `start` of `src`.
pub open spec fn lex_at(src: Seq<u8>, start: int) -> Step
    recommends
        0 <= start < src.len(),
{
    let c = char_at(src, start);
    if c == '(' {
        plain(start + 1, TokenType::LeftParen)
    } else if c == ')' {
        plain(start + 1, TokenType::RightParen)
    } else if c == '{' {
        plain(start + 1, TokenType::LeftBrace)
    } else if c == '}' {
        plain(start + 1, TokenType::RightBrace)
    } else if c == '[' {
        plain(start + 1, TokenType::LeftBracket)
    } else if c == ']' {
        plain(start + 1, TokenType::RightBracket)
    } else if c == ',' {
        plain(start + 1, TokenType::Comma)
    } else if c == '.' {
        plain(start + 1, TokenType::Dot)
    } else if c == '-' {
        plain(start + 1, TokenType::Minus)
    } else if c == '+' {
        plain(start + 1, TokenType::Plus)
    } else if c == ';' {
        plain(start + 1, TokenType::Semicolon)
    } else if c == '*' {
        plain(start + 1, TokenType::Star)
    } else if c == '!' {
        with_equal(src, start, TokenType::BangEqual, TokenType::Bang)
    } else if c == '=' {
        with_equal(src, start, TokenType::EqualEqual, TokenType::Equal)
    } else if c == '<' {
        with_equal(src, start, TokenType::LessEqual, TokenType::Less)
    } else if c == '>' {
        with_equal(src, start, TokenType::GreaterEqual, TokenType::Greater)
    } else if c == '/' {
        lex_slash(src, start)
    } else if c == ' ' || c == '\r' || c == '\t' {
        Step { end: start + 1, piece: Piece::Blank }
    } else if c == '\n' {
        Step { end: start + 1, piece: Piece::LineBreak }
    } else if c == '"' {
        lex_string(src, start)
    } else if is_decimal_digit(c) {
        lex_number(src, start)
    } else if is_alpha(c) {
        lex_word(src, start)
    } else {
        Step { end: start + 1, piece: Piece::Fault { info: unexpected_char(c) } }
    }
}

/// The offsets that the three run functions give lie between `from` and the
/// end of the source, and a search for a character ends at that character
/// or at the end of the source.
pub proof fn lemma_run_bounds(src: Seq<u8>, from: int, stop: char)
    requires
        0 <= from <= src.len(),
    ensures
        from <= digits_end(src, from) <= src.len(),
        from <= word_end(src, from) <= src.len(),
        from <= find_char(src, from, stop) <= src.len(),
        char_at(src, find_char(src, from, stop)) == stop || find_char(src, from, stop)
            == src.len(),
    decreases src.len() - from,
{
    if from < src.len() {
        lemma_run_bounds(src, from + 1, stop);
    }
}

/// Every piece covers at least one byte and ends within the source.
pub proof fn lemma_lex_advances(src: Seq<u8>, start: int)
    requires
        0 <= start < src.len(),
    ensures
        start < lex_at(src, start).end <= src.len(),
{
    lemma_run_bounds(src, start + 1, '"');
    if start + 2 <= src.len() {
        lemma_run_bounds(src, start + 2, '\n');
    }
    let whole = digits_end(src, start);
    lemma_run_bounds(src, start, '"');
    if whole + 1 <= src.len() {
        lemma_run_bounds(src, whole + 1, '"');
    }
}

/// The bytes as text: decoded where they are well-formed UTF-8, else empty.
pub open spec fn text_of(bytes: Seq<u8>) -> Seq<char> {
    if valid_utf8(bytes) {
        decode_utf8(bytes)
    } else {
        Seq::empty()
    }
}

/// A line without the carriage return that may precede its newline.
pub open spec fn without_cr(line: Seq<u8>) -> Seq<u8> {
    if line.len() > 0 && line.last() as char == '\r' {
        line.drop_last()
    } else {
        line
    }
}

/// The lines of `src` from offset `from` on, as bytes. A line ends at a
/// newline, or at a carriage return followed by one; neither belongs to the
/// line. What follows the last newline is a line only if it is not empty.
pub open spec fn lines_from(src: Seq<u8>, from: int) -> Seq<Seq<u8>>
    decreases src.len() - from,
    via lines_from_decreases
{
    if from < 0 || from >= src.len() {
        Seq::empty()
    } else {
        let end = find_char(src, from, '\n');
        if end >= src.len() {
            seq![src.subrange(from, src.len() as int)]
        } else {
            seq![without_cr(src.subrange(from, end))] + lines_from(src, end + 1)
        }
    }
}

#[via_fn]
proof fn lines_from_decreases(src: Seq<u8>, from: int) {
    if 0 <= from < src.len() {
        lemma_run_bounds(src, from, '\n');
    }
}

/// The text of each of the lines.
pub open spec fn texts_of(lines: Seq<Seq<u8>>) -> Seq<Seq<char>> {
    lines.map_values(|line: Seq<u8>| text_of(line))
}

/// The text of each line of `src`.
pub open spec fn line_table(src: Seq<u8>) -> Seq<Seq<char>> {
    texts_of(lines_from(src, 0))
}

/// A stretch of well-formed UTF-8 is well-formed itself where it starts at
/// the start or after a byte below 128, and ends at the end or before a byte
/// below 128.
pub proof fn lemma_slice_of_text(src: Seq<u8>, from: int, to: int)
    requires
        valid_utf8(src),
        0 <= from <= to <= src.len(),
        from == 0 || src[from - 1] < 128,
        to == src.len() || src[to] < 128,
    ensures
        valid_utf8(src.subrange(from, to)),
{
    let tail = src.subrange(from, src.len() as int);
    if from == 0 {
        assert(tail == src);
    } else {
        is_char_boundary_iff_not_is_continuation_byte(src, from - 1);
        valid_utf8_split(src, from - 1);
        let wider = src.subrange(from - 1, src.len() as int);
        assert(wider[0] == src[from - 1]);
        assert(pop_first_scalar(wider) == tail);
    }
    let cut: int = to - from;
    if to == src.len() {
        is_char_boundary_start_end_of_seq(tail);
    } else {
        assert(tail[cut] == src[to]);
        is_char_boundary_iff_not_is_continuation_byte(tail, cut);
    }
    valid_utf8_split(tail, cut);
    assert(tail.subrange(0, cut) == src.subrange(from, to));
}

/// In a source that is well-formed UTF-8, so is each line: the line table
/// of a text shows every line in full.
pub proof fn lemma_lines_of_text(src: Seq<u8>, from: int, i: int)
    requires
        valid_utf8(src),
        0 <= from <= src.len(),
        from == 0 || src[from - 1] < 128,
        0 <= i < lines_from(src, from).len(),
    ensures
        valid_utf8(lines_from(src, from)[i]),
    decreases src.len() - from,
{
    let end = find_char(src, from, '\n');
    lemma_run_bounds(src, from, '\n');
    if end >= src.len() {
        lemma_slice_of_text(src, from, src.len() as int);
    } else if i == 0 {
        let line = src.subrange(from, end);
        if line.len() > 0 && line.last() as char == '\r' {
            lemma_slice_of_text(src, from, end - 1);
            assert(line.drop_last() == src.subrange(from, end - 1));
        } else {
            lemma_slice_of_text(src, from, end);
        }
    } else {
        lemma_lines_of_text(src, end + 1, i - 1);
    }
}

/// In a source that is well-formed UTF-8, a string literal with its closing
/// quote is a token: of the tokens of a text, only a word can fail to decode.
pub proof fn lemma_string_in_text(src: Seq<u8>, start: int)
    requires
        valid_utf8(src),
        0 <= start < src.len(),
        char_at(src, start) == '"',
        find_char(src, start + 1, '"') < src.len(),
    ensures
        lex_string(src, start).piece is Token,
{
    lemma_run_bounds(src, start + 1, '"');
    lemma_slice_of_text(src, start + 1, find_char(src, start + 1, '"'));
}

/// The text of line `line`, counted from 1; empty where there is no such line.
pub open spec fn line_text(lines: Seq<Seq<char>>, line: nat) -> Seq<char> {
    if 1 <= line <= lines.len() {
        lines[line - 1]
    } else {
        Seq::empty()
    }
}

/// What a scan yields: the tokens in source order, and the error that ended
/// it, if one did.
pub struct ScanOutcome {
    pub tokens: Seq<TokenView>,
    pub error: Option<ErrorView>,
}

/// The outcome of scanning `src` from offset `pos` on, with the line and
/// column counters at `line` and `col`. The first error ends the scan.
pub open spec fn scan_from(src: Seq<u8>, pos: int, line: nat, col: nat) -> ScanOutcome
    decreases src.len() - pos,
    via scan_from_decreases
{
    if pos < 0 || pos >= src.len() {
        ScanOutcome { tokens: Seq::empty(), error: None }
    } else {
        let found = lex_at(src, pos);
        let col_after = (col + found.end - pos) as nat;
        match found.piece {
            Piece::Blank => scan_from(src, found.end, line, col_after),
            Piece::LineBreak => scan_from(src, found.end, line + 1, 0),
            Piece::Fault { info } => ScanOutcome {
                tokens: Seq::empty(),
                error: Some(
                    ErrorView {
                        info,
                        line,
                        col: col_after,
                        line_text: line_text(line_table(src), line),
                    },
                ),
            },
            Piece::Token { kind, literal } => {
                let rest = scan_from(src, found.end, line, col_after);
                ScanOutcome {
                    tokens: seq![
                        TokenView {
                            t_type: kind,
                            lexeme: src.subrange(pos, found.end),
                            literal,
                            line,
                            col: col_after,
                        },
                    ] + rest.tokens,
                    error: rest.error,
                }
            },
        }
    }
}

#[via_fn]
proof fn scan_from_decreases(src: Seq<u8>, pos: int, line: nat, col: nat) {
    if 0 <= pos < src.len() {
        lemma_lex_advances(src, pos);
    }
}

/// The outcome of scanning `src`: from its start, on line 1, at column 0.
pub open spec fn scan(src: Seq<u8>) -> ScanOutcome {
    scan_from(src, 0, 1, 0)
}

/// Each token of a scan covers a stretch of the source that is not empty and
/// starts no earlier than the scan, holds exactly the bytes of that stretch,
/// and lies on a line no earlier than the one on which the scan started.
pub proof fn lemma_tokens_cover_source(src: Seq<u8>, pos: int, line: nat, col: nat, i: int)
    requires
        0 <= pos <= src.len(),
        0 <= i < scan_from(src, pos, line, col).tokens.len(),
    ensures
        ({
            let token = scan_from(src, pos, line, col).tokens[i];
            &&& token.line >= line
            &&& exists|from: int, to: int|
                pos <= from < to <= src.len() && token.lexeme == #[trigger] src.subrange(from, to)
        }),
    decreases src.len() - pos,
{
    if pos < src.len() {
        lemma_lex_advances(src, pos);
        let found = lex_at(src, pos);
        let col_after = (col + found.end - pos) as nat;
        match found.piece {
            Piece::Blank => {
                lemma_tokens_cover_source(src, found.end, line, col_after, i);
            },
            Piece::LineBreak => {
                lemma_tokens_cover_source(src, found.end, line + 1, 0, i);
            },
            Piece::Fault { info } => {},
            Piece::Token { kind, literal } => {
                if i == 0 {
                    assert(scan_from(src, pos, line, col).tokens[0].lexeme == src.subrange(
                        pos,
                        found.end,
                    ));
                } else {
                    lemma_tokens_cover_source(src, found.end, line, col_after, i - 1);
                }
            },
        }
    }
}

/// Every byte from `from` up to `digits_end(src, from)` is a digit.
pub proof fn lemma_digits_run(src: Seq<u8>, from: int)
    requires
        0 <= from <= src.len(),
    ensures
        forall|k: int|
            from <= k < digits_end(src, from) ==> is_decimal_digit(#[trigger] src[k] as char),
    decreases src.len() - from,
{
    if from < src.len() && is_decimal_digit(src[from] as char) {
        lemma_digits_run(src, from + 1);
    }
}

/// Bytes below 128 are well-formed UTF-8.
pub proof fn lemma_ascii_is_text(bytes: Seq<u8>)
    requires
        forall|k: int| 0 <= k < bytes.len() ==> #[trigger] bytes[k] < 128,
    ensures
        valid_utf8(bytes),
{
    assert(bytes.subrange(0, 0) == Seq::<u8>::empty());
    assert(partial_valid_utf8(bytes, 0));
    partial_valid_utf8_extend_ascii_block(bytes, 0, bytes.len() as int);
    assert(bytes.subrange(0, bytes.len() as int) == bytes);
}

/// The bytes that a token covers are well-formed UTF-8.
pub proof fn lemma_lexeme_is_text(src: Seq<u8>, start: int)
    requires
        0 <= start < src.len(),
        lex_at(src, start).piece is Token,
    ensures
        valid_utf8(src.subrange(start, lex_at(src, start).end)),
{
    let c = char_at(src, start);
    let end = lex_at(src, start).end;
    let lexeme = src.subrange(start, end);
    lemma_lex_advances(src, start);
    if c == '"' {
        let close = find_char(src, start + 1, '"');
        let body = src.subrange(start + 1, close);
        let quote = seq![src[start]];
        lemma_run_bounds(src, start + 1, '"');
        assert(src[close] == src[start]);
        lemma_ascii_is_text(quote);
        valid_utf8_concat(quote, body);
        valid_utf8_concat(quote + body, quote);
        assert(lexeme == quote + body + quote);
    } else if is_decimal_digit(c) {
        let whole = digits_end(src, start);
        lemma_run_bounds(src, start, '"');
        lemma_digits_run(src, start);
        if whole + 1 <= src.len() {
            lemma_digits_run(src, whole + 1);
        }
        assert forall|k: int| 0 <= k < lexeme.len() implies #[trigger] lexeme[k] < 128 by {
            let at: int = start + k;
            if at != whole {
                assert(is_decimal_digit(src[at] as char));
            }
        }
        lemma_ascii_is_text(lexeme);
    } else if is_alpha(c) {
    } else {
        assert(end <= start + 2);
        assert forall|k: int| 0 <= k < lexeme.len() implies #[trigger] lexeme[k] < 128 by {
            if k == 1 {
                assert(char_at(src, start + 1) == '=');
            }
        }
        lemma_ascii_is_text(lexeme);
    }
}

/// The lexeme of each token of a scan is well-formed UTF-8: decoded as
/// text, it is the stretch of the source that the token covers.
pub proof fn lemma_lexemes_are_text(src: Seq<u8>, pos: int, line: nat, col: nat, i: int)
    requires
        0 <= pos <= src.len(),
        0 <= i < scan_from(src, pos, line, col).tokens.len(),
    ensures
        valid_utf8(scan_from(src, pos, line, col).tokens[i].lexeme),
    decreases src.len() - pos,
{
    if pos < src.len() {
        lemma_lex_advances(src, pos);
        let found = lex_at(src, pos);
        let col_after = (col + found.end - pos) as nat;
        match found.piece {
            Piece::Blank => {
                lemma_lexemes_are_text(src, found.end, line, col_after, i);
            },
            Piece::LineBreak => {
                lemma_lexemes_are_text(src, found.end, line + 1, 0, i);
            },
            Piece::Fault { info } => {},
            Piece::Token { kind, literal } => {
                if i == 0 {
                    lemma_lexeme_is_text(src, pos);
                } else {
                    lemma_lexemes_are_text(src, found.end, line, col_after, i - 1);
                }
            },
        }
    }
}

/// No reserved word has the end-of-input kind.
pub proof fn lemma_keyword_is_no_end_marker(text: Seq<char>, from: int)
    requires
        0 <= from,
    ensures
        keyword_from(keyword_table(), text, from) != Some(TokenType::Eof),
    decreases keyword_table().len() - from,
{
    if from < keyword_table().len() {
        lemma_keyword_is_no_end_marker(text, from + 1);
    }
}

/// A scan marks the end of the input by no token: none of its tokens has
/// the end-of-input kind.
pub proof fn lemma_scan_has_no_end_marker(src: Seq<u8>, pos: int, line: nat, col: nat, i: int)
    requires
        0 <= pos <= src.len(),
        0 <= i < scan_from(src, pos, line, col).tokens.len(),
    ensures
        scan_from(src, pos, line, col).tokens[i].t_type != TokenType::Eof,
    decreases src.len() - pos,
{
    if pos < src.len() {
        lemma_lex_advances(src, pos);
        let found = lex_at(src, pos);
        let col_after = (col + found.end - pos) as nat;
        match found.piece {
            Piece::Blank => {
                lemma_scan_has_no_end_marker(src, found.end, line, col_after, i);
            },
            Piece::LineBreak => {
                lemma_scan_has_no_end_marker(src, found.end, line + 1, 0, i);
            },
            Piece::Fault { info } => {},
            Piece::Token { kind, literal } => {
                if i == 0 {
                    let word = src.subrange(pos, word_end(src, pos));
                    lemma_keyword_is_no_end_marker(decode_utf8(word), 0);
                } else {
                    lemma_scan_has_no_end_marker(src, found.end, line, col_after, i - 1);
                }
            },
        }
    }
}

/// A search for a character that does not occur from `from` on ends at the
/// end of the source.
pub proof fn lemma_find_absent(src: Seq<u8>, from: int, stop: char)
    requires
        0 <= from <= src.len(),
        forall|k: int| from <= k < src.len() ==> #[trigger] src[k] as char != stop,
    ensures
        find_char(src, from, stop) == src.len(),
    decreases src.len() - from,
{
    if from < src.len() {
        lemma_find_absent(src, from + 1, stop);
    }
}

/// A string literal that is opened and never closed ends the scan: no token
/// comes from it or after it, and the error says that the string is not
/// terminated.
pub proof fn lemma_open_string_ends_scan(src: Seq<u8>, pos: int, line: nat, col: nat)
    requires
        0 <= pos < src.len(),
        char_at(src, pos) == '"',
        forall|k: int| pos < k < src.len() ==> #[trigger] src[k] as char != '"',
    ensures
        scan_from(src, pos, line, col).tokens == Seq::<TokenView>::empty(),
        scan_from(src, pos, line, col).error matches Some(error) && error.info
            == unterminated_string() && error.line == line,
{
    lemma_find_absent(src, pos + 1, '"');
}

/// A comment contributes nothing to a scan: from two slashes on, the scan
/// yields what it yields from the end of that line on.
pub proof fn lemma_comment_yields_nothing(src: Seq<u8>, pos: int, line: nat, col: nat)
    requires
        0 <= pos < src.len(),
        char_at(src, pos) == '/',
        char_at(src, pos + 1) == '/',
    ensures
        ({
            let end = find_char(src, pos + 2, '\n');
            &&& pos + 2 <= end <= src.len()
            &&& char_at(src, end) == '\n' || end == src.len()
            &&& scan_from(src, pos, line, col) == scan_from(
                src,
                end,
                line,
                (col + end - pos) as nat,
            )
        }),
{
    lemma_run_bounds(src, pos + 2, '\n');
}

/// Scanning the empty text yields no token and no error.
pub proof fn lemma_scan_empty()
    ensures
        scan(Seq::empty()).tokens == Seq::<TokenView>::empty(),
        scan(Seq::empty()).error is None,
{
}

} // verus!

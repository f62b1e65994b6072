//! The scanner: what the tokens of a text are, and the code that finds them.

use vstd::prelude::*;
use crate::object::{Object, ObjectView};
use crate::rlox::{RLox, RLoxView};
use crate::token::{token_views, Token, TokenView};
use crate::token_type::{keyword, keyword_of, TokenType};

verus! {

/// What the scanner can find wrong with the source text.
#[derive(Clone, Copy, Debug, PartialEq, Eq, Structural)]
pub enum Problem {
    /// A character that starts no token.
    UnexpectedCharacter,
    /// A string literal whose closing quote is missing.
    UnterminatedString,
}

/// The message with which a problem is reported.
pub open spec fn message_of(problem: Problem) -> Seq<char> {
    match problem {
        Problem::UnexpectedCharacter => "Unexpected character"@,
        Problem::UnterminatedString => "Unterminated String"@,
    }
}

pub open spec fn is_digit_spec(c: char) -> bool {
    '0' <= c && c <= '9'
}

pub open spec fn is_alpha_spec(c: char) -> bool {
    ('a' <= c && c <= 'z') || ('A' <= c && c <= 'Z') || c == '_'
}

pub open spec fn is_alpha_numeric_spec(c: char) -> bool {
    is_digit_spec(c) || is_alpha_spec(c)
}

/// The line after a newline was read on `line`. Lines are counted up to the
/// largest number the machine holds.
pub open spec fn bump(line: usize) -> usize {
    if line < usize::MAX {
        (line + 1) as usize
    } else {
        line
    }
}

/// Whether the character at `at` is `expected`.
pub open spec fn follows(source: Seq<char>, at: int, expected: char) -> bool {
    0 <= at < source.len() && source[at] == expected
}

/// The end of the run of digits that starts at `from`.
pub open spec fn digits_end(source: Seq<char>, from: int) -> int
    decreases source.len() - from,
{
    if 0 <= from < source.len() && is_digit_spec(source[from]) {
        digits_end(source, from + 1)
    } else {
        from
    }
}

/// The end of the run of letters, digits and underscores that starts at `from`.
pub open spec fn word_end(source: Seq<char>, from: int) -> int
    decreases source.len() - from,
{
    if 0 <= from < source.len() && is_alpha_numeric_spec(source[from]) {
        word_end(source, from + 1)
    } else {
        from
    }
}

/// The position of the first newline at or after `from`, or the end of the text.
pub open spec fn line_end(source: Seq<char>, from: int) -> int
    decreases source.len() - from,
{
    if 0 <= from < source.len() && source[from] != '\n' {
        line_end(source, from + 1)
    } else {
        from
    }
}

/// The position of the first double quote at or after `from`, or the end of
/// the text.
pub open spec fn string_end(source: Seq<char>, from: int) -> int
    decreases source.len() - from,
{
    if 0 <= from < source.len() && source[from] != '"' {
        string_end(source, from + 1)
    } else {
        from
    }
}

/// The line reached from `line` by reading the characters from `from` up to `to`.
pub open spec fn line_after(source: Seq<char>, from: int, to: int, line: usize) -> usize
    decreases to - from,
{
    if to <= from {
        line
    } else if source[to - 1] == '\n' {
        bump(line_after(source, from, to - 1, line))
    } else {
        line_after(source, from, to - 1, line)
    }
}

/// What one scanning step finds at a position: where it ends, the line
/// reached, and the token or the problem it yields, if any.
pub struct Lexeme {
    pub end: int,
    pub line: usize,
    pub token: Option<TokenView>,
    pub problem: Option<Problem>,
}

/// A token without a literal, read from `start` up to `end`.
pub open spec fn plain(source: Seq<char>, start: int, end: int, line: usize, kind: TokenType) -> Lexeme {
    Lexeme {
        end,
        line,
        token: Some(
            TokenView {
                token_type: kind,
                lexeme: source.subrange(start, end),
                literal: ObjectView::Null,
                line,
            },
        ),
        problem: None,
    }
}

/// Text that yields nothing: blanks, newlines, comments.
pub open spec fn skipped(end: int, line: usize) -> Lexeme {
    Lexeme { end, line, token: None, problem: None }
}

/// An operator of one character, or of two when `=` follows.
pub open spec fn operator(
    source: Seq<char>,
    start: int,
    line: usize,
    single: TokenType,
    double: TokenType,
) -> Lexeme {
    if follows(source, start + 1, '=') {
        plain(source, start, start + 2, line, double)
    } else {
        plain(source, start, start + 1, line, single)
    }
}

/// A string literal: everything up to the next double quote, newlines
/// included and no escape processed. The literal is the text between the
/// quotes. Without a closing quote there is no token.
pub open spec fn string_lexeme(source: Seq<char>, start: int, line: usize) -> Lexeme {
    let close = string_end(source, start + 1);
    let reached = line_after(source, start + 1, close, line);
    if close >= source.len() {
        Lexeme { end: close, line: reached, token: None, problem: Some(Problem::UnterminatedString) }
    } else {
        Lexeme {
            end: close + 1,
            line: reached,
            token: Some(
                TokenView {
                    token_type: TokenType::String,
                    lexeme: source.subrange(start, close + 1),
                    literal: ObjectView::String(source.subrange(start + 1, close)),
                    line: reached,
                },
            ),
            problem: None,
        }
    }
}

/// Where the number literal that starts at `start` ends: after its digits,
/// and after a fraction if a dot and at least one digit follow them.
pub open spec fn number_end(source: Seq<char>, start: int) -> int {
    let whole = digits_end(source, start + 1);
    if follows(source, whole, '.') && whole + 1 < source.len() && is_digit_spec(source[whole + 1]) {
        digits_end(source, whole + 1)
    } else {
        whole
    }
}

/// A number literal; its literal is the numeral itself.
pub open spec fn number_lexeme(source: Seq<char>, start: int, line: usize) -> Lexeme {
    let end = number_end(source, start);
    Lexeme {
        end,
        line,
        token: Some(
            TokenView {
                token_type: TokenType::Number,
                lexeme: source.subrange(start, end),
                literal: ObjectView::Number(source.subrange(start, end)),
                line,
            },
        ),
        problem: None,
    }
}

/// An identifier, or the keyword that its text spells.
pub open spec fn identifier_lexeme(source: Seq<char>, start: int, line: usize) -> Lexeme {
    let end = word_end(source, start + 1);
    let kind = match keyword_of(source.subrange(start, end)) {
        Some(kind) => kind,
        None => TokenType::Identifier,
    };
    plain(source, start, end, line, kind)
}

/// One scanning step at `start`, a position inside the text.
pub open spec fn lexeme_at(source: Seq<char>, start: int, line: usize) -> Lexeme {
    let c = source[start];
    if c == '(' {
        plain(source, start, start + 1, line, TokenType::LeftParen)
    } else if c == ')' {
        plain(source, start, start + 1, line, TokenType::RightParen)
    } else if c == '{' {
        plain(source, start, start + 1, line, TokenType::LeftBrace)
    } else if c == '}' {
        plain(source, start, start + 1, line, TokenType::RightBrace)
    } else if c == ',' {
        plain(source, start, start + 1, line, TokenType::Comma)
    } else if c == '.' {
        plain(source, start, start + 1, line, TokenType::Dot)
    } else if c == '-' {
        plain(source, start, start + 1, line, TokenType::Minus)
    } else if c == '+' {
        plain(source, start, start + 1, line, TokenType::Plus)
    } else if c == ';' {
        plain(source, start, start + 1, line, TokenType::Semicolon)
    } else if c == '*' {
        plain(source, start, start + 1, line, TokenType::Star)
    } else if c == '!' {
        operator(source, start, line, TokenType::Bang, TokenType::BangEqual)
    } else if c == '=' {
        operator(source, start, line, TokenType::Equal, TokenType::EqualEqual)
    } else if c == '<' {
        operator(source, start, line, TokenType::Less, TokenType::LessEqual)
    } else if c == '>' {
        operator(source, start, line, TokenType::Greater, TokenType::GreaterEqual)
    } else if c == '/' {
        if follows(source, start + 1, '/') {
            skipped(line_end(source, start + 2), line)
        } else {
            plain(source, start, start + 1, line, TokenType::Slash)
        }
    } else if c == ' ' || c == '\r' || c == '\t' {
        skipped(start + 1, line)
    } else if c == '\n' {
        skipped(start + 1, bump(line))
    } else if c == '"' {
        string_lexeme(source, start, line)
    } else if is_digit_spec(c) {
        number_lexeme(source, start, line)
    } else if is_alpha_spec(c) {
        identifier_lexeme(source, start, line)
    } else {
        Lexeme { end: start + 1, line, token: None, problem: Some(Problem::UnexpectedCharacter) }
    }
}

/// The outcome of scanning: the tokens, the problems with the lines on
/// which they were found, and the last line.
pub struct Scan {
    pub tokens: Seq<TokenView>,
    pub problems: Seq<(usize, Problem)>,
    pub line: usize,
}

/// The token that ends every token sequence.
pub open spec fn eof(line: usize) -> TokenView {
    TokenView { token_type: TokenType::Eof, lexeme: Seq::empty(), literal: ObjectView::Null, line }
}

/// `sequence` with `item` appended, if there is one.
pub open spec fn with<T>(sequence: Seq<T>, item: Option<T>) -> Seq<T> {
    match item {
        Some(item) => sequence.push(item),
        None => sequence,
    }
}

/// Scanning from `start` on, when what lies before `start` has given
/// `found`: step after step to the end of the text, then the `Eof` token.
pub open spec fn scan_from(source: Seq<char>, start: int, line: usize, found: Scan) -> Scan
    decreases source.len() - start,
{
    if start < 0 || start >= source.len() {
        Scan { tokens: found.tokens.push(eof(line)), problems: found.problems, line }
    } else {
        let lexeme = lexeme_at(source, start, line);
        if lexeme.end <= start || lexeme.end > source.len() {
            found
        } else {
            scan_from(
                source,
                lexeme.end,
                lexeme.line,
                Scan {
                    tokens: with(found.tokens, lexeme.token),
                    problems: with(
                        found.problems,
                        match lexeme.problem {
                            Some(problem) => Some((lexeme.line, problem)),
                            None => None,
                        },
                    ),
                    line: lexeme.line,
                },
            )
        }
    }
}

/// The tokens and problems of a source text. Lines are counted from 1.
pub open spec fn scan(source: Seq<char>) -> Scan {
    scan_from(source, 0, 1, Scan { tokens: Seq::empty(), problems: Seq::empty(), line: 1 })
}

/// The sink after the problems were reported to it, in order.
pub open spec fn reported(sink: RLoxView, problems: Seq<(usize, Problem)>) -> RLoxView
    decreases problems.len(),
{
    if problems.len() == 0 {
        sink
    } else {
        reported(sink, problems.drop_last()).report(
            problems.last().0 as u64,
            Seq::empty(),
            message_of(problems.last().1),
        )
    }
}

/// Every run ends at or after its start, and inside the text.
pub proof fn runs_end_inside(source: Seq<char>, from: int)
    requires
        0 <= from <= source.len(),
    ensures
        from <= digits_end(source, from) <= source.len(),
        from <= word_end(source, from) <= source.len(),
        from <= line_end(source, from) <= source.len(),
        from <= string_end(source, from) <= source.len(),
    decreases source.len() - from,
{
    if from < source.len() {
        runs_end_inside(source, from + 1);
    }
}

/// A scanning step consumes at least one character and stays inside the text.
pub proof fn lexeme_advances(source: Seq<char>, start: int, line: usize)
    requires
        0 <= start < source.len(),
    ensures
        start < lexeme_at(source, start, line).end <= source.len(),
{
    runs_end_inside(source, start + 1);
    if start + 2 <= source.len() {
        runs_end_inside(source, start + 2);
    }
    let whole = digits_end(source, start + 1);
    if whole + 1 <= source.len() {
        runs_end_inside(source, whole + 1);
    }
}

/// Where the tokens of a text were read, as `scan_from` finds them: for
/// each token the positions at which its lexeme starts and ends. The `Eof`
/// token stands at the end of the text.
pub open spec fn spans_from(source: Seq<char>, start: int, line: usize, found: Seq<(int, int)>) -> Seq<
    (int, int),
>
    decreases source.len() - start,
{
    if start < 0 || start >= source.len() {
        found.push((source.len() as int, source.len() as int))
    } else {
        let lexeme = lexeme_at(source, start, line);
        if lexeme.end <= start || lexeme.end > source.len() {
            found
        } else {
            spans_from(
                source,
                lexeme.end,
                lexeme.line,
                if lexeme.token is Some {
                    found.push((start, lexeme.end))
                } else {
                    found
                },
            )
        }
    }
}

/// Where the tokens of a text were read.
pub open spec fn spans(source: Seq<char>) -> Seq<(int, int)> {
    spans_from(source, 0, 1, Seq::empty())
}

/// Whether the tokens are cut out of the text at the spans: each lexeme is
/// the text of its span, the spans lie before `bound`, and they follow one
/// another without overlap.
pub open spec fn cut_from(source: Seq<char>, tokens: Seq<TokenView>, spans: Seq<(int, int)>, bound: int) -> bool {
    &&& tokens.len() == spans.len()
    &&& forall|i: int|
        0 <= i < tokens.len() ==> {
            &&& 0 <= (#[trigger] spans[i]).0 <= spans[i].1 <= bound
            &&& tokens[i].lexeme == source.subrange(spans[i].0, spans[i].1)
        }
    &&& forall|i: int, j: int| 0 <= i < j < spans.len() ==> (#[trigger] spans[i]).1 <= (#[trigger] spans[j]).0
}

proof fn lemma_scan_cuts(
    source: Seq<char>,
    start: int,
    line: usize,
    found: Scan,
    found_spans: Seq<(int, int)>,
)
    requires
        0 <= start <= source.len(),
        cut_from(source, found.tokens, found_spans, start),
    ensures
        cut_from(
            source,
            scan_from(source, start, line, found).tokens,
            spans_from(source, start, line, found_spans),
            source.len() as int,
        ),
    decreases source.len() - start,
{
    if start >= source.len() {
        assert(eof(line).lexeme =~= source.subrange(source.len() as int, source.len() as int));
    } else {
        let lexeme = lexeme_at(source, start, line);
        lexeme_advances(source, start, line);
        let next = Scan {
            tokens: with(found.tokens, lexeme.token),
            problems: with(
                found.problems,
                match lexeme.problem {
                    Some(problem) => Some((lexeme.line, problem)),
                    None => None,
                },
            ),
            line: lexeme.line,
        };
        let next_spans = if lexeme.token is Some {
            found_spans.push((start, lexeme.end))
        } else {
            found_spans
        };
        if lexeme.token is Some {
            assert(lexeme.token->Some_0.lexeme == source.subrange(start, lexeme.end));
        }
        assert(cut_from(source, next.tokens, next_spans, lexeme.end));
        lemma_scan_cuts(source, lexeme.end, lexeme.line, next, next_spans);
    }
}

/// Scanner round trip. Every token is cut out of the source text: its
/// lexeme is the text between two positions, and the tokens lie in the text
/// in the order in which they are returned, without overlap. What lies
/// between them made no token: blanks, newlines, comments, and what was
/// reported as a problem.
pub proof fn tokens_are_cut_from_the_source(source: Seq<char>)
    ensures
        cut_from(source, scan(source).tokens, spans(source), source.len() as int),
{
    lemma_scan_cuts(
        source,
        0,
        1,
        Scan { tokens: Seq::empty(), problems: Seq::empty(), line: 1 },
        Seq::empty(),
    );
}

/// The last token of every scan is `Eof`, and no token before it is.
pub proof fn scan_ends_with_eof(source: Seq<char>)
    ensures
        scan(source).tokens.len() > 0,
        scan(source).tokens.last().token_type == TokenType::Eof,
        forall|i: int|
            0 <= i < scan(source).tokens.len() - 1 ==> (#[trigger] scan(source).tokens[i]).token_type
                != TokenType::Eof,
{
    lemma_scan_ends(source, 0, 1, Scan { tokens: Seq::empty(), problems: Seq::empty(), line: 1 });
}

proof fn lemma_scan_ends(source: Seq<char>, start: int, line: usize, found: Scan)
    requires
        0 <= start <= source.len(),
        forall|i: int| 0 <= i < found.tokens.len() ==> (#[trigger] found.tokens[i]).token_type != TokenType::Eof,
    ensures
        scan_from(source, start, line, found).tokens.len() > 0,
        scan_from(source, start, line, found).tokens.last().token_type == TokenType::Eof,
        forall|i: int|
            0 <= i < scan_from(source, start, line, found).tokens.len() - 1 ==> (#[trigger] scan_from(
                source,
                start,
                line,
                found,
            ).tokens[i]).token_type != TokenType::Eof,
    decreases source.len() - start,
{
    if start < source.len() {
        let lexeme = lexeme_at(source, start, line);
        lexeme_advances(source, start, line);
        let next = Scan {
            tokens: with(found.tokens, lexeme.token),
            problems: with(
                found.problems,
                match lexeme.problem {
                    Some(problem) => Some((lexeme.line, problem)),
                    None => None,
                },
            ),
            line: lexeme.line,
        };
        lemma_keyword_is_no_eof(source.subrange(start, word_end(source, start + 1)));
        lemma_scan_ends(source, lexeme.end, lexeme.line, next);
    }
}

proof fn lemma_keyword_is_no_eof(text: Seq<char>)
    ensures
        keyword_of(text) != Some(TokenType::Eof),
{
}

/// Whether `text` is a numeral: one or more digits, and after them
/// possibly a dot and one or more digits. Every such text stands for a
/// double.
pub open spec fn is_numeral(text: Seq<char>) -> bool {
    let whole = digits_end(text, 0);
    &&& whole >= 1
    &&& whole == text.len() || (text[whole] == '.' && whole + 1 < text.len() && digits_end(
        text,
        whole + 1,
    ) == text.len())
}

/// Whether a token carries the literal that its kind calls for: a string
/// token the text between its quotes, a number token its lexeme, which is a
/// numeral, every other token none.
pub open spec fn carries_its_literal(token: TokenView) -> bool {
    match token.token_type {
        TokenType::String => token.literal is String && token.lexeme == seq!['"']
            + token.literal->String_0 + seq!['"'],
        TokenType::Number => token.literal == ObjectView::Number(token.lexeme) && is_numeral(
            token.lexeme,
        ),
        _ => token.literal == ObjectView::Null,
    }
}

/// A run of digits in a piece of a text ends where it ends in the text, or
/// where the piece ends.
proof fn lemma_digits_in_piece(source: Seq<char>, start: int, end: int, from: int)
    requires
        0 <= start <= from <= end <= source.len(),
    ensures
        digits_end(source.subrange(start, end), from - start) == (if digits_end(source, from) < end {
            digits_end(source, from)
        } else {
            end
        }) - start,
    decreases end - from,
{
    let piece = source.subrange(start, end);
    if from < end {
        assert(piece[from - start] == source[from]);
        if is_digit_spec(source[from]) {
            lemma_digits_in_piece(source, start, end, from + 1);
        }
    } else {
        runs_end_inside(source, from);
    }
}

/// The lexeme of a number token is a numeral.
proof fn lemma_number_is_numeral(source: Seq<char>, start: int)
    requires
        0 <= start < source.len(),
        is_digit_spec(source[start]),
    ensures
        is_numeral(source.subrange(start, number_end(source, start))),
{
    let whole = digits_end(source, start + 1);
    let end = number_end(source, start);
    let text = source.subrange(start, end);
    runs_end_inside(source, start + 1);
    assert(digits_end(source, start) == whole);
    if end == whole {
        lemma_digits_in_piece(source, start, end, start);
        assert(digits_end(text, 0) == text.len());
    } else {
        assert(follows(source, whole, '.') && is_digit_spec(source[whole + 1]));
        runs_end_inside(source, whole + 2);
        assert(end == digits_end(source, whole + 2));
        lemma_digits_in_piece(source, start, end, start);
        lemma_digits_in_piece(source, start, end, whole + 1);
        assert(text[whole - start] == source[whole]);
        assert(digits_end(text, 0) == whole - start);
        assert(digits_end(text, whole - start + 1) == text.len());
    }
}

/// Whether the tokens stand on lines from 1 to `line`, never on an earlier
/// line than the token before, and carry their literals.
pub open spec fn in_reading_order(tokens: Seq<TokenView>, line: usize) -> bool {
    &&& forall|i: int| 0 <= i < tokens.len() ==> 1 <= (#[trigger] tokens[i]).line <= line
    &&& forall|i: int, j: int|
        0 <= i < j < tokens.len() ==> (#[trigger] tokens[i]).line <= (#[trigger] tokens[j]).line
    &&& forall|i: int| 0 <= i < tokens.len() ==> carries_its_literal(#[trigger] tokens[i])
}

proof fn lemma_string_end(source: Seq<char>, from: int)
    requires
        0 <= from <= source.len(),
    ensures
        from <= string_end(source, from) <= source.len(),
        string_end(source, from) < source.len() ==> source[string_end(source, from)] == '"',
    decreases source.len() - from,
{
    if from < source.len() && source[from] != '"' {
        lemma_string_end(source, from + 1);
    }
}

proof fn lemma_line_after(source: Seq<char>, from: int, to: int, line: usize)
    ensures
        line <= line_after(source, from, to, line),
    decreases to - from,
{
    if to > from {
        lemma_line_after(source, from, to - 1, line);
    }
}

proof fn lemma_scan_order(source: Seq<char>, start: int, line: usize, found: Scan)
    requires
        0 <= start <= source.len(),
        1 <= line,
        in_reading_order(found.tokens, line),
    ensures
        in_reading_order(
            scan_from(source, start, line, found).tokens,
            scan_from(source, start, line, found).line,
        ),
    decreases source.len() - start,
{
    if start < source.len() {
        let lexeme = lexeme_at(source, start, line);
        lexeme_advances(source, start, line);
        runs_end_inside(source, start + 1);
        let close = string_end(source, start + 1);
        lemma_line_after(source, start + 1, close, line);
        let next = Scan {
            tokens: with(found.tokens, lexeme.token),
            problems: with(
                found.problems,
                match lexeme.problem {
                    Some(problem) => Some((lexeme.line, problem)),
                    None => None,
                },
            ),
            line: lexeme.line,
        };
        if lexeme.token is Some {
            let token = lexeme.token->Some_0;
            if token.token_type == TokenType::String {
                assert(source[start] == '"');
                lemma_string_end(source, start + 1);
                assert(token.lexeme =~= seq!['"'] + token.literal->String_0 + seq!['"']);
            }
            lemma_keyword_is_plain(source.subrange(start, word_end(source, start + 1)));
            if token.token_type == TokenType::Number {
                lemma_number_is_numeral(source, start);
            }
            assert(carries_its_literal(token));
        }
        lemma_scan_order(source, lexeme.end, lexeme.line, next);
    }
}

proof fn lemma_keyword_is_plain(text: Seq<char>)
    ensures
        keyword_of(text) != Some(TokenType::String),
        keyword_of(text) != Some(TokenType::Number),
{
}

/// The tokens of a text stand on lines counted from 1, in the order of the
/// text, and each carries the literal that its kind calls for.
pub proof fn tokens_keep_reading_order(source: Seq<char>)
    ensures
        in_reading_order(scan(source).tokens, scan(source).line),
{
    lemma_scan_order(source, 0, 1, Scan { tokens: Seq::empty(), problems: Seq::empty(), line: 1 });
}

/// The characters of `source`, in order.
pub fn characters_of(source: &str) -> (characters: Vec<char>)
    ensures
        characters@ == source@,
{
    let mut characters: Vec<char> = Vec::new();
    for c in it: source.chars()
        invariant
            it.seq() == source@,
            characters@ == it.seq().take(it.index() as int),
    {
        characters.push(c);
        assert(characters@ =~= it.seq().take(it.index() + 1));
    }
    assert(characters@ =~= source@);
    characters
}

/// The scanner: it walks the source text once, from the first character to
/// the last, and reports what it cannot read to the sink it is given.
pub struct Scanner {
    source: String,
    characters: Vec<char>,
    tokens: Vec<Token>,
    start: usize,
    current: usize,
    line: usize,
}

impl Scanner {
    /// The text being scanned.
    pub closed spec fn source(&self) -> Seq<char> {
        self.source@
    }

    /// The tokens found so far.
    pub closed spec fn found(&self) -> Seq<TokenView> {
        token_views(self.tokens@)
    }

    /// The position of the next character to read.
    pub closed spec fn position(&self) -> int {
        self.current as int
    }

    /// The line of the next character to read.
    pub closed spec fn current_line(&self) -> usize {
        self.line
    }

    pub closed spec fn well_formed(&self) -> bool {
        &&& self.characters@ == self.source@
        &&& self.characters@.len() <= usize::MAX
        &&& self.start <= self.current <= self.characters@.len()
    }

    pub fn new(source: String) -> (scanner: Self)
        ensures
            scanner.well_formed(),
            scanner.source() == source@,
            scanner.found() == Seq::<TokenView>::empty(),
            scanner.position() == 0,
            scanner.current_line() == 1,
    {
        let characters = characters_of(source.as_str());
        assert(characters.len() <= usize::MAX);
        let scanner = Self { source, characters, tokens: Vec::new(), start: 0, current: 0, line: 1 };
        assert(scanner.found() =~= Seq::<TokenView>::empty());
        scanner
    }

    /// The line of the next character to read.
    pub fn line(&self) -> (line: usize)
        ensures
            line == self.current_line(),
    {
        self.line
    }

    fn is_at_end(&self) -> (at_end: bool)
        requires
            self.well_formed(),
        ensures
            at_end == (self.current >= self.characters@.len()),
    {
        self.current >= self.characters.len()
    }

    fn advance(&mut self) -> (c: char)
        requires
            old(self).well_formed(),
            old(self).current < old(self).characters@.len(),
        ensures
            final(self).well_formed(),
            c == old(self).characters@[old(self).current as int],
            *final(self) == (Scanner { current: (old(self).current + 1) as usize, ..*old(self) }),
    {
        self.current = self.current + 1;
        self.characters[self.current - 1]
    }

    fn peek(&self) -> (c: char)
        requires
            self.well_formed(),
        ensures
            c == (if self.current < self.characters@.len() {
                self.characters@[self.current as int]
            } else {
                '\0'
            }),
    {
        if self.is_at_end() {
            return '\0';
        }
        self.characters[self.current]
    }

    fn peek_next(&self) -> (c: char)
        requires
            self.well_formed(),
        ensures
            c == (if self.current + 1 < self.characters@.len() {
                self.characters@[self.current + 1]
            } else {
                '\0'
            }),
    {
        if self.current >= self.characters.len() || self.current + 1 >= self.characters.len() {
            return '\0';
        }
        self.characters[self.current + 1]
    }

    /// Consumes the next character if it is `expected`.
    fn match_next(&mut self, expected: char) -> (matched: bool)
        requires
            old(self).well_formed(),
        ensures
            final(self).well_formed(),
            matched == follows(old(self).characters@, old(self).current as int, expected),
            *final(self) == (Scanner {
                current: if matched {
                    (old(self).current + 1) as usize
                } else {
                    old(self).current
                },
                ..*old(self)
            }),
    {
        if self.is_at_end() {
            return false;
        }
        if self.characters[self.current] != expected {
            return false;
        }
        self.current = self.current + 1;
        true
    }

    fn is_digit(c: char) -> (digit: bool)
        ensures
            digit == is_digit_spec(c),
    {
        c >= '0' && c <= '9'
    }

    fn is_alpha(c: char) -> (alpha: bool)
        ensures
            alpha == is_alpha_spec(c),
    {
        (c >= 'a' && c <= 'z') || (c >= 'A' && c <= 'Z') || c == '_'
    }

    fn is_alpha_numeric(c: char) -> (alpha_numeric: bool)
        ensures
            alpha_numeric == is_alpha_numeric_spec(c),
    {
        Self::is_digit(c) || Self::is_alpha(c)
    }

    /// The text from `from` up to `to`.
    fn text(&self, from: usize, to: usize) -> (text: String)
        requires
            self.well_formed(),
            from <= to <= self.characters@.len(),
        ensures
            text@ == self.characters@.subrange(from as int, to as int),
    {
        String::from_str(self.source.as_str().substring_char(from, to))
    }

    /// Appends the token that was read from `start` up to `current`.
    fn add_token(&mut self, token_type: TokenType, literal: Object)
        requires
            old(self).well_formed(),
        ensures
            final(self).well_formed(),
            final(self).found() == old(self).found().push(
                TokenView {
                    token_type,
                    lexeme: old(self).characters@.subrange(
                        old(self).start as int,
                        old(self).current as int,
                    ),
                    literal: literal@,
                    line: old(self).line,
                },
            ),
            final(self).source == old(self).source,
            final(self).characters == old(self).characters,
            final(self).start == old(self).start,
            final(self).current == old(self).current,
            final(self).line == old(self).line,
    {
        let lexeme = self.text(self.start, self.current);
        self.tokens.push(Token::new(token_type, lexeme, literal, self.line));
        assert(self.found() =~= old(self).found().push(
            TokenView {
                token_type,
                lexeme: old(self).characters@.subrange(old(self).start as int, old(self).current as int),
                literal: literal@,
                line: old(self).line,
            },
        ));
    }

    /// Reports a problem on the current line.
    fn problem(&self, problem: Problem, rlox: &mut RLox)
        ensures
            final(rlox)@ == old(rlox)@.report(self.line as u64, Seq::empty(), message_of(problem)),
    {
        let message = match problem {
            Problem::UnexpectedCharacter => String::from_str("Unexpected character"),
            Problem::UnterminatedString => String::from_str("Unterminated String"),
        };
        rlox.error(self.line as u64, message);
    }

    /// Reads the rest of an identifier or keyword.
    fn identifier(&mut self)
        requires
            old(self).well_formed(),
            old(self).current == old(self).start + 1,
        ensures
            final(self).well_formed(),
            final(self).current == identifier_lexeme(
                old(self).characters@,
                old(self).start as int,
                old(self).line,
            ).end,
            final(self).found() == with(
                old(self).found(),
                identifier_lexeme(old(self).characters@, old(self).start as int, old(self).line).token,
            ),
            final(self).source == old(self).source,
            final(self).characters == old(self).characters,
            final(self).line == old(self).line,
    {
        while Self::is_alpha_numeric(self.peek())
            invariant
                self.well_formed(),
                self.start + 1 <= self.current,
                word_end(self.characters@, self.current as int) == word_end(
                    self.characters@,
                    self.start + 1,
                ),
                *self == (Scanner { current: self.current, ..*old(self) }),
            decreases self.characters@.len() - self.current,
        {
            self.advance();
        }
        let text = self.text(self.start, self.current);
        let token_type = match keyword(&text) {
            Some(kind) => kind,
            None => TokenType::Identifier,
        };
        self.add_token(token_type, Object::Null);
    }

    /// Reads the rest of a number literal.
    fn number(&mut self)
        requires
            old(self).well_formed(),
            old(self).current == old(self).start + 1,
        ensures
            final(self).well_formed(),
            final(self).current == number_lexeme(
                old(self).characters@,
                old(self).start as int,
                old(self).line,
            ).end,
            final(self).found() == with(
                old(self).found(),
                number_lexeme(old(self).characters@, old(self).start as int, old(self).line).token,
            ),
            final(self).source == old(self).source,
            final(self).characters == old(self).characters,
            final(self).line == old(self).line,
    {
        while Self::is_digit(self.peek())
            invariant
                self.well_formed(),
                self.start + 1 <= self.current,
                digits_end(self.characters@, self.current as int) == digits_end(
                    self.characters@,
                    self.start + 1,
                ),
                *self == (Scanner { current: self.current, ..*old(self) }),
            decreases self.characters@.len() - self.current,
        {
            self.advance();
        }
        let ghost whole = self.current as int;
        if self.peek() == '.' && Self::is_digit(self.peek_next()) {
            self.advance();
            while Self::is_digit(self.peek())
                invariant
                    self.well_formed(),
                    whole + 1 <= self.current,
                    self.start <= whole,
                    digits_end(self.characters@, self.current as int) == digits_end(
                        self.characters@,
                        whole + 1,
                    ),
                    *self == (Scanner { current: self.current, ..*old(self) }),
                decreases self.characters@.len() - self.current,
            {
                self.advance();
            }
        }
        let numeral = self.text(self.start, self.current);
        self.add_token(TokenType::Number, Object::Number(numeral));
    }

    /// Reads the rest of a string literal.
    fn string(&mut self, rlox: &mut RLox)
        requires
            old(self).well_formed(),
            old(self).current == old(self).start + 1,
        ensures
            final(self).well_formed(),
            final(self).current == string_lexeme(
                old(self).characters@,
                old(self).start as int,
                old(self).line,
            ).end,
            final(self).line == string_lexeme(
                old(self).characters@,
                old(self).start as int,
                old(self).line,
            ).line,
            final(self).found() == with(
                old(self).found(),
                string_lexeme(old(self).characters@, old(self).start as int, old(self).line).token,
            ),
            final(rlox)@ == (match string_lexeme(
                old(self).characters@,
                old(self).start as int,
                old(self).line,
            ).problem {
                Some(problem) => old(rlox)@.report(
                    final(self).line as u64,
                    Seq::empty(),
                    message_of(problem),
                ),
                None => old(rlox)@,
            }),
            final(self).source == old(self).source,
            final(self).characters == old(self).characters,
    {
        while self.peek() != '"' && !self.is_at_end()
            invariant
                self.well_formed(),
                self.start + 1 <= self.current,
                string_end(self.characters@, self.current as int) == string_end(
                    self.characters@,
                    self.start + 1,
                ),
                self.line == line_after(
                    self.characters@,
                    self.start + 1,
                    self.current as int,
                    old(self).line,
                ),
                *self == (Scanner { current: self.current, line: self.line, ..*old(self) }),
            decreases self.characters@.len() - self.current,
        {
            if self.peek() == '\n' {
                if self.line < usize::MAX {
                    self.line = self.line + 1;
                }
            }
            self.advance();
        }
        if self.is_at_end() {
            self.problem(Problem::UnterminatedString, rlox);
            return ;
        }
        // The closing quote.
        self.advance();
        // The literal is the text between the quotes.
        let literal = self.text(self.start + 1, self.current - 1);
        self.add_token(TokenType::String, Object::String(literal));
    }

    /// Reads an operator of one character, or of two when `=` follows.
    fn operator(&mut self, single: TokenType, double: TokenType)
        requires
            old(self).well_formed(),
            old(self).current == old(self).start + 1,
        ensures
            final(self).well_formed(),
            final(self).current == operator(
                old(self).characters@,
                old(self).start as int,
                old(self).line,
                single,
                double,
            ).end,
            final(self).found() == with(
                old(self).found(),
                operator(old(self).characters@, old(self).start as int, old(self).line, single, double).token,
            ),
            final(self).source == old(self).source,
            final(self).characters == old(self).characters,
            final(self).line == old(self).line,
    {
        let token_type = if self.match_next('=') {
            double
        } else {
            single
        };
        self.add_token(token_type, Object::Null);
    }

    /// Takes one scanning step: reads the lexeme at the current position.
    fn scan_token(&mut self, rlox: &mut RLox)
        requires
            old(self).well_formed(),
            old(self).start == old(self).current,
            old(self).current < old(self).characters@.len(),
        ensures
            final(self).well_formed(),
            final(self).current == lexeme_at(
                old(self).characters@,
                old(self).current as int,
                old(self).line,
            ).end,
            final(self).line == lexeme_at(
                old(self).characters@,
                old(self).current as int,
                old(self).line,
            ).line,
            final(self).found() == with(
                old(self).found(),
                lexeme_at(old(self).characters@, old(self).current as int, old(self).line).token,
            ),
            final(rlox)@ == (match lexeme_at(
                old(self).characters@,
                old(self).current as int,
                old(self).line,
            ).problem {
                Some(problem) => old(rlox)@.report(
                    final(self).line as u64,
                    Seq::empty(),
                    message_of(problem),
                ),
                None => old(rlox)@,
            }),
            final(self).source == old(self).source,
            final(self).characters == old(self).characters,
    {
        let c: char = self.advance();
        if c == '(' {
            self.add_token(TokenType::LeftParen, Object::Null);
        } else if c == ')' {
            self.add_token(TokenType::RightParen, Object::Null);
        } else if c == '{' {
            self.add_token(TokenType::LeftBrace, Object::Null);
        } else if c == '}' {
            self.add_token(TokenType::RightBrace, Object::Null);
        } else if c == ',' {
            self.add_token(TokenType::Comma, Object::Null);
        } else if c == '.' {
            self.add_token(TokenType::Dot, Object::Null);
        } else if c == '-' {
            self.add_token(TokenType::Minus, Object::Null);
        } else if c == '+' {
            self.add_token(TokenType::Plus, Object::Null);
        } else if c == ';' {
            self.add_token(TokenType::Semicolon, Object::Null);
        } else if c == '*' {
            self.add_token(TokenType::Star, Object::Null);
        } else if c == '!' {
            self.operator(TokenType::Bang, TokenType::BangEqual);
        } else if c == '=' {
            self.operator(TokenType::Equal, TokenType::EqualEqual);
        } else if c == '<' {
            self.operator(TokenType::Less, TokenType::LessEqual);
        } else if c == '>' {
            self.operator(TokenType::Greater, TokenType::GreaterEqual);
        } else if c == '/' {
            if self.match_next('/') {
                // A comment goes on to the end of the line.
                while self.peek() != '\n' && !self.is_at_end()
                    invariant
                        self.well_formed(),
                        self.start + 2 <= self.current,
                        line_end(self.characters@, self.current as int) == line_end(
                            self.characters@,
                            self.start + 2,
                        ),
                        *self == (Scanner { current: self.current, ..*old(self) }),
                    decreases self.characters@.len() - self.current,
                {
                    self.advance();
                }
            } else {
                self.add_token(TokenType::Slash, Object::Null);
            }
        } else if c == ' ' || c == '\r' || c == '\t' {
        } else if c == '\n' {
            if self.line < usize::MAX {
                self.line = self.line + 1;
            }
        } else if c == '"' {
            self.string(rlox);
        } else if Self::is_digit(c) {
            self.number();
        } else if Self::is_alpha(c) {
            self.identifier();
        } else {
            self.problem(Problem::UnexpectedCharacter, rlox);
        }
    }

    /// Scans the text from the current position to its end and returns all
    /// the tokens found, the closing `Eof` included. Problems are reported
    /// to `rlox`, and scanning goes on after each.
    pub fn scan_tokens(&mut self, rlox: &mut RLox) -> (tokens: Vec<Token>)
        requires
            old(self).well_formed(),
        ensures
            final(self).well_formed(),
            final(self).source() == old(self).source(),
            token_views(tokens@) == final(self).found(),
            ({
                let scan = scan_from(
                    old(self).source(),
                    old(self).position(),
                    old(self).current_line(),
                    Scan {
                        tokens: old(self).found(),
                        problems: Seq::empty(),
                        line: old(self).current_line(),
                    },
                );
                &&& final(self).found() == scan.tokens
                &&& final(self).current_line() == scan.line
                &&& final(rlox)@ == reported(old(rlox)@, scan.problems)
            }),
    {
        let ghost mut problems: Seq<(usize, Problem)> = Seq::empty();
        let ghost goal = scan_from(
            old(self).source(),
            old(self).position(),
            old(self).current_line(),
            Scan { tokens: old(self).found(), problems: Seq::empty(), line: old(self).current_line() },
        );
        while !self.is_at_end()
            invariant
                self.well_formed(),
                self.source == old(self).source,
                self.characters == old(self).characters,
                rlox@ == reported(old(rlox)@, problems),
                scan_from(
                    self.characters@,
                    self.current as int,
                    self.line,
                    Scan { tokens: self.found(), problems, line: self.line },
                ) == goal,
            decreases self.characters@.len() - self.current,
        {
            self.start = self.current;
            let ghost before = *self;
            let ghost lexeme = lexeme_at(self.characters@, self.current as int, self.line);
            proof {
                lexeme_advances(self.characters@, self.current as int, self.line);
            }
            self.scan_token(rlox);
            proof {
                let next = with(
                    problems,
                    match lexeme.problem {
                        Some(problem) => Some((lexeme.line, problem)),
                        None => None,
                    },
                );
                if lexeme.problem is Some {
                    assert(next.drop_last() =~= problems);
                }
                problems = next;
            }
        }
        let ghost found = self.found();
        self.tokens.push(Token::new(TokenType::Eof, String::new(), Object::Null, self.line));
        assert(self.found() =~= found.push(eof(self.line)));
        clone_tokens(&self.tokens)
    }
}

/// A copy of the tokens.
pub fn clone_tokens(tokens: &Vec<Token>) -> (copy: Vec<Token>)
    ensures
        token_views(copy@) == token_views(tokens@),
{
    let mut copy: Vec<Token> = Vec::new();
    let mut i: usize = 0;
    while i < tokens.len()
        invariant
            i <= tokens@.len(),
            copy@.len() == i,
            forall|j: int| 0 <= j < i ==> copy@[j]@ == tokens@[j]@,
        decreases tokens@.len() - i,
    {
        copy.push(tokens[i].clone());
        i = i + 1;
    }
    assert(token_views(copy@) =~= token_views(tokens@));
    copy
}

} // verus!

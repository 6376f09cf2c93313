//! The lexical grammar, written as spec functions.
//!
//! A source text is a sequence of characters. Scanning proceeds in steps; the
//! step at position `pos` consumes [`consumed`] characters (at least one) and
//! yields what [`lexed`] says: nothing, a token, or a lexical error. A whole
//! pass is the list of tokens and the list of errors of all steps, in order
//! ([`scan_from`]), and [`scan`] is the result handed to the caller.

use crate::text::decimal;
use crate::token::{no_literal, ObjectView, TokenType, TokenView};
use vstd::prelude::*;

verus! {

/// An ASCII decimal digit.
pub open spec fn digit(c: char) -> bool {
    '0' <= c <= '9'
}

/// An ASCII letter or the underscore.
pub open spec fn alpha(c: char) -> bool {
    'a' <= c <= 'z' || 'A' <= c <= 'Z' || c == '_'
}

/// White space within a line: space, carriage return, tab.
pub open spec fn blank(c: char) -> bool {
    c == ' ' || c == '\r' || c == '\t'
}

/// The category of a token that is the single character `c`.
pub open spec fn single_symbol(c: char) -> Option<TokenType> {
    match c {
        '(' => Some(TokenType::LeftParen),
        ')' => Some(TokenType::RightParen),
        '{' => Some(TokenType::LeftBrace),
        '}' => Some(TokenType::RightBrace),
        ',' => Some(TokenType::Comma),
        '.' => Some(TokenType::Dot),
        '-' => Some(TokenType::Minus),
        '+' => Some(TokenType::Plus),
        ';' => Some(TokenType::Semicolon),
        '/' => Some(TokenType::Slash),
        '*' => Some(TokenType::Star),
        '!' => Some(TokenType::Bang),
        '=' => Some(TokenType::Equal),
        '<' => Some(TokenType::Less),
        '>' => Some(TokenType::Greater),
        _ => None,
    }
}

/// The category of a token that is the character `c` followed by `=`.
pub open spec fn double_symbol(c: char) -> Option<TokenType> {
    match c {
        '!' => Some(TokenType::BangEqual),
        '=' => Some(TokenType::EqualEqual),
        '<' => Some(TokenType::LessEqual),
        '>' => Some(TokenType::GreaterEqual),
        _ => None,
    }
}

/// The category of the punctuation or operator token spelled `text`.
pub open spec fn symbol(text: Seq<char>) -> Option<TokenType> {
    if text.len() == 1 {
        single_symbol(text[0])
    } else if text.len() == 2 && text[1] == '=' {
        double_symbol(text[0])
    } else {
        None
    }
}

/// The reserved words, each with its category. Lookup is by exact spelling.
pub open spec fn keywords() -> Map<Seq<char>, TokenType> {
    Map::<Seq<char>, TokenType>::empty().insert("and"@, TokenType::And).insert(
        "class"@,
        TokenType::Class,
    ).insert("else"@, TokenType::Else).insert("false"@, TokenType::False).insert(
        "fn"@,
        TokenType::Fn,
    ).insert("for"@, TokenType::For).insert("if"@, TokenType::If).insert(
        "nil"@,
        TokenType::Nil,
    ).insert("or"@, TokenType::Or).insert("print"@, TokenType::Print).insert(
        "return"@,
        TokenType::Return,
    ).insert("super"@, TokenType::Super).insert("this"@, TokenType::This).insert(
        "true"@,
        TokenType::True,
    ).insert("var"@, TokenType::Var).insert("while"@, TokenType::While)
}

/// The kinds of character run that the grammar knows.
pub enum Run {
    /// Decimal digits.
    Digits,
    /// Letters, digits and underscores.
    Word,
    /// Everything up to the end of the line.
    Comment,
    /// Everything up to the next double quote.
    Quoted,
}

/// Whether the character `c` may stand in a run of kind `run`.
pub open spec fn in_run(run: Run, c: char) -> bool {
    match run {
        Run::Digits => digit(c),
        Run::Word => alpha(c) || digit(c),
        Run::Comment => c != '\n',
        Run::Quoted => c != '"',
    }
}

/// The length of the longest run of kind `run` that starts at `from`.
pub open spec fn run_len(src: Seq<char>, from: int, run: Run) -> nat
    decreases src.len() - from,
{
    if 0 <= from < src.len() && in_run(run, src[from]) {
        1 + run_len(src, from + 1, run)
    } else {
        0
    }
}

/// Whether the character after position `pos` is `c`.
pub open spec fn followed_by(src: Seq<char>, pos: int, c: char) -> bool {
    pos + 1 < src.len() && src[pos + 1] == c
}

/// The number of newline characters in `text`.
pub open spec fn count_newlines(text: Seq<char>) -> nat
    decreases text.len(),
{
    if text.len() == 0 {
        0
    } else if text.last() == '\n' {
        count_newlines(text.drop_last()) + 1
    } else {
        count_newlines(text.drop_last())
    }
}

/// The length of the number literal that starts with the digit at `pos`: a
/// run of digits, and, where a point and a digit follow it, the point and a
/// second run of digits.
pub open spec fn number_len(src: Seq<char>, pos: int) -> nat {
    let whole = 1 + run_len(src, pos + 1, Run::Digits);
    let point = pos + whole;
    if point + 1 < src.len() && src[point] == '.' && digit(src[point + 1]) {
        whole + 1 + run_len(src, point + 1, Run::Digits)
    } else {
        whole
    }
}

/// Whether a line comment starts at `pos`.
pub open spec fn comment_at(src: Seq<char>, pos: int) -> bool {
    src[pos] == '/' && followed_by(src, pos, '/')
}

/// The position of the quote that closes the string literal opened at `pos`,
/// or the length of the text if nothing closes it.
pub open spec fn closing_quote(src: Seq<char>, pos: int) -> int {
    pos + 1 + run_len(src, pos + 1, Run::Quoted)
}

/// The number of characters that the step at `pos` consumes, by the longest
/// match. It is never zero.
pub open spec fn consumed(src: Seq<char>, pos: int) -> nat
    recommends
        0 <= pos < src.len(),
{
    let c = src[pos];
    if comment_at(src, pos) {
        2 + run_len(src, pos + 2, Run::Comment)
    } else if c == '"' {
        if closing_quote(src, pos) < src.len() {
            2 + run_len(src, pos + 1, Run::Quoted)
        } else {
            1 + run_len(src, pos + 1, Run::Quoted)
        }
    } else if digit(c) {
        number_len(src, pos)
    } else if alpha(c) {
        1 + run_len(src, pos + 1, Run::Word)
    } else if double_symbol(c) is Some && followed_by(src, pos, '=') {
        2
    } else {
        1
    }
}

/// What one step of the scanner yields.
pub enum Lexed {
    /// White space or a comment: no token.
    Skip,
    /// A token.
    Emit(TokenView),
    /// A lexical error, as its message.
    Fault(Seq<char>),
}

/// The message for a character that begins no token, found on line `line`.
pub open spec fn unexpected_character(line: nat) -> Seq<char> {
    "Unexpected character at line "@ + decimal(line)
}

/// The message for a string literal that is still open where the text ends,
/// on line `line`.
pub open spec fn unterminated_string(line: nat) -> Seq<char> {
    "Unterminated string at line "@ + decimal(line)
}

/// The token for the word `text`: the keyword of that spelling if there is
/// one, else an identifier that carries the spelling.
pub open spec fn word(text: Seq<char>, line: nat) -> TokenView {
    if keywords().contains_key(text) {
        TokenView { token_type: keywords()[text], lexeme: text, literal: no_literal(), line }
    } else {
        TokenView {
            token_type: TokenType::Identifier,
            lexeme: text,
            literal: ObjectView::IdentifierVal(text),
            line,
        }
    }
}

/// What the step at `pos` yields, when the line counter stands at `line`.
/// A token's lexeme is the text that the step consumes, and its line is the
/// line of its first character.
pub open spec fn lexed(src: Seq<char>, pos: int, line: nat) -> Lexed
    recommends
        0 <= pos < src.len(),
{
    let c = src[pos];
    let text = src.subrange(pos, pos + consumed(src, pos));
    if blank(c) || c == '\n' || comment_at(src, pos) {
        Lexed::Skip
    } else if c == '"' {
        if closing_quote(src, pos) < src.len() {
            Lexed::Emit(
                TokenView {
                    token_type: TokenType::String,
                    lexeme: text,
                    literal: ObjectView::StringVal(
                        src.subrange(pos + 1, closing_quote(src, pos)),
                    ),
                    line,
                },
            )
        } else {
            Lexed::Fault(unterminated_string(line + count_newlines(text)))
        }
    } else if digit(c) {
        Lexed::Emit(
            TokenView {
                token_type: TokenType::Number,
                lexeme: text,
                literal: ObjectView::FloatVal(text),
                line,
            },
        )
    } else if alpha(c) {
        Lexed::Emit(word(text, line))
    } else {
        match symbol(text) {
            Some(token_type) => Lexed::Emit(
                TokenView { token_type, lexeme: text, literal: no_literal(), line },
            ),
            None => Lexed::Fault(unexpected_character(line)),
        }
    }
}

/// What a pass over a stretch of text has gathered.
pub struct Pass {
    /// The tokens, in source order.
    pub tokens: Seq<TokenView>,
    /// The messages of the lexical errors, in source order.
    pub errors: Seq<Seq<char>>,
    /// The line counter at the end of the text.
    pub line: nat,
}

/// The pass over `src` from position `pos` to the end, when the line counter
/// stands at `line`. The counter goes up by one for each newline consumed.
pub open spec fn scan_from(src: Seq<char>, pos: int, line: nat) -> Pass
    decreases
            if pos < src.len() {
                src.len() - pos
            } else {
                0
            },
{
    if 0 <= pos < src.len() {
        let next = pos + consumed(src, pos);
        let rest = scan_from(src, next, line + count_newlines(src.subrange(pos, next)));
        match lexed(src, pos, line) {
            Lexed::Skip => rest,
            Lexed::Emit(token) => Pass { tokens: seq![token] + rest.tokens, ..rest },
            Lexed::Fault(message) => Pass { errors: seq![message] + rest.errors, ..rest },
        }
    } else {
        Pass { tokens: Seq::empty(), errors: Seq::empty(), line }
    }
}

/// The token that ends every token sequence.
pub open spec fn eof(line: nat) -> TokenView {
    TokenView {
        token_type: TokenType::Eof,
        lexeme: Seq::empty(),
        literal: no_literal(),
        line,
    }
}

/// The error report: every message followed by a newline.
pub open spec fn report(errors: Seq<Seq<char>>) -> Seq<char>
    decreases errors.len(),
{
    if errors.len() == 0 {
        Seq::empty()
    } else {
        report(errors.drop_last()) + errors.last() + "\n"@
    }
}

/// The result of scanning the whole of `src`: the tokens followed by the
/// end-of-input token, or, if there was any lexical error, the report of all
/// of them and no token.
pub open spec fn scan(src: Seq<char>) -> Result<Seq<TokenView>, Seq<char>> {
    let pass = scan_from(src, 0, 1);
    if pass.errors.len() == 0 {
        Ok(pass.tokens.push(eof(pass.line)))
    } else {
        Err(report(pass.errors))
    }
}

/// The line of position `pos`: one more than the number of newlines before it.
pub open spec fn line_at(src: Seq<char>, pos: int) -> nat {
    1 + count_newlines(src.subrange(0, pos))
}

/// Whether the pass over `src` that starts at `from` takes a step at
/// position `pos`, or ends there.
pub open spec fn visits(src: Seq<char>, from: int, pos: int) -> bool
    decreases
            if from < pos {
                pos - from
            } else {
                0
            },
{
    from == pos || (0 <= from < pos && from < src.len() && visits(
        src,
        from + consumed(src, from),
        pos,
    ))
}

/// A run ends inside the text, holds only characters of its kind, and stops
/// at the end of the text or before a character of another kind.
pub proof fn lemma_run_len(src: Seq<char>, from: int, run: Run)
    requires
        0 <= from <= src.len(),
    ensures
        from + run_len(src, from, run) <= src.len(),
        forall|i: int|
            from <= i < from + run_len(src, from, run) ==> in_run(run, #[trigger] src[i]),
        from + run_len(src, from, run) < src.len() ==> !in_run(
            run,
            src[from + run_len(src, from, run)],
        ),
    decreases src.len() - from,
{
    if from < src.len() && in_run(run, src[from]) {
        lemma_run_len(src, from + 1, run);
    }
}

/// The step at a position inside the text consumes at least one character
/// and does not run past the end of the text.
pub proof fn lemma_consumed_bounds(src: Seq<char>, pos: int)
    requires
        0 <= pos < src.len(),
    ensures
        1 <= consumed(src, pos),
        pos + consumed(src, pos) <= src.len(),
{
    lemma_run_len(src, pos + 1, Run::Quoted);
    lemma_run_len(src, pos + 1, Run::Digits);
    lemma_run_len(src, pos + 1, Run::Word);
    if pos + 2 <= src.len() {
        lemma_run_len(src, pos + 2, Run::Comment);
    }
    let point = pos + 1 + run_len(src, pos + 1, Run::Digits);
    if point + 1 < src.len() {
        lemma_run_len(src, point + 1, Run::Digits);
    }
}

/// Newlines are counted part by part.
pub proof fn lemma_count_newlines_concat(a: Seq<char>, b: Seq<char>)
    ensures
        count_newlines(a + b) == count_newlines(a) + count_newlines(b),
    decreases b.len(),
{
    if b.len() > 0 {
        assert((a + b).drop_last() =~= a + b.drop_last());
        lemma_count_newlines_concat(a, b.drop_last());
    }
}

/// Newlines are counted stretch by stretch.
pub proof fn lemma_count_newlines_split(src: Seq<char>, from: int, mid: int, to: int)
    requires
        0 <= from <= mid <= to <= src.len(),
    ensures
        count_newlines(src.subrange(from, to)) == count_newlines(src.subrange(from, mid))
            + count_newlines(src.subrange(mid, to)),
{
    assert(src.subrange(from, to) =~= src.subrange(from, mid) + src.subrange(mid, to));
    lemma_count_newlines_concat(src.subrange(from, mid), src.subrange(mid, to));
}

/// A text without a newline character counts none, and no text counts more
/// newlines than it has characters.
pub proof fn lemma_count_newlines_bounds(text: Seq<char>)
    ensures
        count_newlines(text) <= text.len(),
        (forall|i: int| 0 <= i < text.len() ==> text[i] != '\n') ==> count_newlines(text) == 0,
    decreases text.len(),
{
    if text.len() > 0 {
        lemma_count_newlines_bounds(text.drop_last());
    }
}

/// The newlines that a step consumes: the newline character itself, the
/// newlines inside a string literal, and none anywhere else.
pub proof fn lemma_step_newlines(src: Seq<char>, pos: int)
    requires
        0 <= pos < src.len(),
    ensures
        count_newlines(src.subrange(pos, pos + consumed(src, pos))) == if src[pos] == '\n' {
            1nat
        } else if src[pos] == '"' {
            count_newlines(src.subrange(pos + 1, closing_quote(src, pos)))
        } else {
            0nat
        },
{
    lemma_consumed_bounds(src, pos);
    let next = pos + consumed(src, pos);
    let text = src.subrange(pos, next);
    if src[pos] == '"' {
        let close = closing_quote(src, pos);
        lemma_run_len(src, pos + 1, Run::Quoted);
        lemma_count_newlines_split(src, pos, pos + 1, next);
        lemma_count_newlines_bounds(src.subrange(pos, pos + 1));
        if close < src.len() {
            lemma_count_newlines_split(src, pos + 1, close, next);
            lemma_count_newlines_bounds(src.subrange(close, next));
        }
    } else if src[pos] == '\n' {
        assert(count_newlines(text.drop_last()) == 0);
    } else {
        lemma_run_len(src, pos + 1, Run::Digits);
        lemma_run_len(src, pos + 1, Run::Word);
        if pos + 2 <= src.len() {
            lemma_run_len(src, pos + 2, Run::Comment);
        }
        let point = pos + 1 + run_len(src, pos + 1, Run::Digits);
        if point + 1 < src.len() {
            lemma_run_len(src, point + 1, Run::Digits);
        }
        lemma_count_newlines_bounds(text);
    }
}

} // verus!

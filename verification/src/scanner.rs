//! The scanner: one forward pass over the source text that gathers tokens and
//! lexical errors, proved to yield what the grammar describes.

use crate::grammar::{
    alpha, closing_quote, consumed, count_newlines, digit, eof, keywords, lemma_consumed_bounds,
    lemma_count_newlines_bounds, lemma_count_newlines_split, lemma_step_newlines, lexed,
    number_len, report, run_len, scan, scan_from, unexpected_character, unterminated_string, word,
    Lexed, Run,
};
use crate::text::{chars_of, push_decimal, string_of};
use crate::token::{
    clone_tokens, no_literal, token_views, Object, ObjectView, Token, TokenType, TokenView,
};
use vstd::hash_map::StringHashMap;
use vstd::prelude::*;

verus! {

/// The keyword table: every reserved spelling with its token category.
pub fn get_keywords_from_hashmap() -> (table: StringHashMap<TokenType>)
    ensures
        table@ == keywords(),
{
    let mut table: StringHashMap<TokenType> = StringHashMap::new();
    table.insert("and".to_string(), TokenType::And);
    table.insert("class".to_string(), TokenType::Class);
    table.insert("else".to_string(), TokenType::Else);
    table.insert("false".to_string(), TokenType::False);
    table.insert("fn".to_string(), TokenType::Fn);
    table.insert("for".to_string(), TokenType::For);
    table.insert("if".to_string(), TokenType::If);
    table.insert("nil".to_string(), TokenType::Nil);
    table.insert("or".to_string(), TokenType::Or);
    table.insert("print".to_string(), TokenType::Print);
    table.insert("return".to_string(), TokenType::Return);
    table.insert("super".to_string(), TokenType::Super);
    table.insert("this".to_string(), TokenType::This);
    table.insert("true".to_string(), TokenType::True);
    table.insert("var".to_string(), TokenType::Var);
    table.insert("while".to_string(), TokenType::While);
    table
}

/// Whether the character is an ASCII decimal digit.
pub fn is_digit(character: char) -> (r: bool)
    ensures
        r == digit(character),
{
    character >= '0' && character <= '9'
}

/// Whether the character is an ASCII letter or the underscore.
pub fn is_alpha(character: char) -> (r: bool)
    ensures
        r == alpha(character),
{
    character >= 'a' && character <= 'z' || character >= 'A' && character <= 'Z' || character
        == '_'
}

/// The message for a character that begins no token.
fn unexpected_character_message(line: usize) -> (message: String)
    ensures
        message@ == unexpected_character(line as nat),
{
    let mut message = "Unexpected character at line ".to_string();
    push_decimal(&mut message, line);
    message
}

/// The message for a string literal that is never closed.
fn unterminated_string_message(line: usize) -> (message: String)
    ensures
        message@ == unterminated_string(line as nat),
{
    let mut message = "Unterminated string at line ".to_string();
    push_decimal(&mut message, line);
    message
}

/// The texts of a sequence of strings, in order.
pub open spec fn texts(strings: Seq<String>) -> Seq<Seq<char>> {
    strings.map_values(|s: String| s@)
}

/// The value of what a pass returns: the values of the tokens, or the text of
/// the report.
pub open spec fn result_view(result: Result<Vec<Token>, String>) -> Result<
    Seq<TokenView>,
    Seq<char>,
> {
    match result {
        Ok(tokens) => Ok(token_views(tokens@)),
        Err(message) => Err(message@),
    }
}

/// A scanner over one source text. It is made for one pass: [`Scanner::new`],
/// then [`Scanner::scan_tokens`].
pub struct Scanner {
    /// The characters of the source text, followed by one NUL character, so
    /// that the character under the cursor can be read at the end of the text
    /// too.
    source: Vec<char>,
    /// The tokens gathered so far.
    tokens: Vec<Token>,
    /// The position of the first character of the token being scanned.
    start: usize,
    /// The position of the next character to read.
    current: usize,
    /// The one-based line of the next character to read.
    line: usize,
    keywords: StringHashMap<TokenType>,
}

/// What a scanner stands for: its text, the tokens gathered so far, the
/// position of its cursor and its line counter.
pub struct ScannerView {
    pub source: Seq<char>,
    pub tokens: Seq<TokenView>,
    pub current: nat,
    pub line: nat,
}

impl View for Scanner {
    type V = ScannerView;

    closed spec fn view(&self) -> ScannerView {
        ScannerView {
            source: self.text(),
            tokens: token_views(self.tokens@),
            current: self.current as nat,
            line: self.line as nat,
        }
    }
}

impl Scanner {
    /// The source text.
    spec fn text(&self) -> Seq<char> {
        self.source@.drop_last()
    }

    /// The marks lie in order inside the text, the buffer ends with its NUL
    /// character, and the keyword table is the grammar's.
    spec fn inv(&self) -> bool {
        &&& self.source@.len() > 0
        &&& self.source@.last() == '\0'
        &&& self.start <= self.current < self.source@.len()
        &&& self.keywords@ == keywords()
    }

    /// The scanner is well formed: its cursor lies inside the text or at its
    /// end, and its line counter is one more than the number of newlines
    /// before the cursor.
    pub closed spec fn wf(&self) -> bool {
        &&& self.inv()
        &&& self.line == 1 + count_newlines(self.text().subrange(0, self.current as int))
    }

    /// The cursor of a well-formed scanner is inside its text or at its end,
    /// and its line counter counts the newlines before the cursor.
    pub proof fn law_cursor_and_line(&self)
        requires
            self.wf(),
        ensures
            self@.current <= self@.source.len(),
            self@.line == 1 + count_newlines(self@.source.subrange(0, self@.current as int)),
    {
    }

    /// Whether the cursor is at the end of the text.
    fn is_at_end(&self) -> (r: bool)
        requires
            self.inv(),
        ensures
            r == (self.current >= self.text().len()),
    {
        self.current >= self.source.len() - 1
    }

    /// Reads the character under the cursor and moves the cursor past it.
    fn advance(&mut self) -> (c: char)
        requires
            old(self).inv(),
            old(self).current < old(self).text().len(),
        ensures
            final(self).inv(),
            c == old(self).text()[old(self).current as int],
            final(self).current == old(self).current + 1,
            final(self).source == old(self).source,
            final(self).tokens == old(self).tokens,
            final(self).start == old(self).start,
            final(self).line == old(self).line,
    {
        let c = self.source[self.current];
        assert(self.source@.len() == self.source.len());
        self.current += 1;
        c
    }

    /// The character under the cursor, or NUL at the end of the text.
    fn peek(&self) -> (c: char)
        requires
            self.inv(),
        ensures
            c == if self.current < self.text().len() {
                self.text()[self.current as int]
            } else {
                '\0'
            },
    {
        self.source[self.current]
    }

    /// The character after the one under the cursor, or NUL if the text has
    /// none there.
    fn peek_next(&self) -> (c: char)
        requires
            self.inv(),
        ensures
            c == if self.current + 1 < self.text().len() {
                self.text()[self.current + 1]
            } else {
                '\0'
            },
    {
        assert(self.source@.len() == self.source.len());
        if self.current + 1 >= self.source.len() - 1 {
            return '\0';
        }
        self.source[self.current + 1]
    }

    /// Moves the cursor past the character under it if that is `expected`.
    fn char_match(&mut self, expected: char) -> (matched: bool)
        requires
            old(self).inv(),
        ensures
            final(self).inv(),
            matched == (old(self).current < old(self).text().len()
                && old(self).text()[old(self).current as int] == expected),
            final(self).current == if matched {
                old(self).current + 1
            } else {
                old(self).current as int
            },
            final(self).source == old(self).source,
            final(self).tokens == old(self).tokens,
            final(self).start == old(self).start,
            final(self).line == old(self).line,
    {
        if self.is_at_end() {
            return false;
        }
        if self.source[self.current] != expected {
            return false;
        }
        assert(self.source@.len() == self.source.len());
        self.current += 1;
        true
    }

    /// Appends a token without a literal value.
    fn add_token(&mut self, token_type: TokenType)
        requires
            old(self).inv(),
        ensures
            final(self).inv(),
            token_views(final(self).tokens@) == token_views(old(self).tokens@).push(
                TokenView {
                    token_type,
                    lexeme: old(self).text().subrange(
                        old(self).start as int,
                        old(self).current as int,
                    ),
                    literal: no_literal(),
                    line: old(self).line as nat,
                },
            ),
            final(self).current == old(self).current,
            final(self).source == old(self).source,
            final(self).start == old(self).start,
            final(self).line == old(self).line,
    {
        self.add_token_lit(token_type, None)
    }

    /// Appends a token of the given category whose lexeme is the text between
    /// the two marks and whose line is the line counter's.
    fn add_token_lit(&mut self, token_type: TokenType, literal: Option<Object>)
        requires
            old(self).inv(),
        ensures
            final(self).inv(),
            token_views(final(self).tokens@) == token_views(old(self).tokens@).push(
                TokenView {
                    token_type,
                    lexeme: old(self).text().subrange(
                        old(self).start as int,
                        old(self).current as int,
                    ),
                    literal: match literal {
                        Some(value) => value@,
                        None => no_literal(),
                    },
                    line: old(self).line as nat,
                },
            ),
            final(self).current == old(self).current,
            final(self).source == old(self).source,
            final(self).start == old(self).start,
            final(self).line == old(self).line,
    {
        let text = string_of(&self.source, self.start, self.current);
        let literal = match literal {
            Some(value) => value,
            None => Object::IntVal(0),
        };
        let token = Token { token_type, lexeme: text, literal, line: self.line };
        self.tokens.push(token);
        assert(self.source@.subrange(self.start as int, self.current as int)
            =~= self.text().subrange(self.start as int, self.current as int));
    }

    /// Scans the rest of a number literal whose first digit has been read,
    /// and appends its token.
    fn number(&mut self)
        requires
            old(self).inv(),
            old(self).current == old(self).start + 1,
            digit(old(self).text()[old(self).start as int]),
        ensures
            final(self).inv(),
            final(self).current == old(self).start + number_len(
                old(self).text(),
                old(self).start as int,
            ),
            token_views(final(self).tokens@) == token_views(old(self).tokens@).push(
                TokenView {
                    token_type: TokenType::Number,
                    lexeme: old(self).text().subrange(
                        old(self).start as int,
                        final(self).current as int,
                    ),
                    literal: ObjectView::FloatVal(
                        old(self).text().subrange(
                            old(self).start as int,
                            final(self).current as int,
                        ),
                    ),
                    line: old(self).line as nat,
                },
            ),
            final(self).source == old(self).source,
            final(self).start == old(self).start,
            final(self).line == old(self).line,
    {
        let ghost text = self.text();
        let ghost first = self.start + 1;
        while is_digit(self.peek())
            invariant
                self.inv(),
                self.text() == text,
                first <= self.current <= text.len(),
                run_len(text, first, Run::Digits) == (self.current - first) + run_len(
                    text,
                    self.current as int,
                    Run::Digits,
                ),
                self.source == old(self).source,
                self.tokens == old(self).tokens,
                self.start == old(self).start,
                self.line == old(self).line,
            decreases text.len() - self.current,
        {
            self.advance();
        }
        if self.peek() == '.' && is_digit(self.peek_next()) {
            self.advance();
            let ghost second = self.current as int;
            while is_digit(self.peek())
                invariant
                    self.inv(),
                    self.text() == text,
                    second <= self.current <= text.len(),
                    run_len(text, second, Run::Digits) == (self.current - second) + run_len(
                        text,
                        self.current as int,
                        Run::Digits,
                    ),
                    self.source == old(self).source,
                    self.tokens == old(self).tokens,
                    self.start == old(self).start,
                    self.line == old(self).line,
                decreases text.len() - self.current,
            {
                self.advance();
            }
        }
        let value = string_of(&self.source, self.start, self.current);
        assert(self.source@.subrange(self.start as int, self.current as int) =~= text.subrange(
            self.start as int,
            self.current as int,
        ));
        self.add_token_lit(TokenType::Number, Some(Object::FloatVal(value)));
    }

    /// Scans the rest of a word whose first character has been read, and
    /// appends its token: a keyword's, or an identifier's.
    fn identifier(&mut self)
        requires
            old(self).inv(),
            old(self).current == old(self).start + 1,
        ensures
            final(self).inv(),
            final(self).current == old(self).start + 1 + run_len(
                old(self).text(),
                old(self).start + 1,
                Run::Word,
            ),
            token_views(final(self).tokens@) == token_views(old(self).tokens@).push(
                word(
                    old(self).text().subrange(old(self).start as int, final(self).current as int),
                    old(self).line as nat,
                ),
            ),
            final(self).source == old(self).source,
            final(self).start == old(self).start,
            final(self).line == old(self).line,
    {
        let ghost text = self.text();
        let ghost first = self.start + 1;
        while is_alpha(self.peek()) || is_digit(self.peek())
            invariant
                self.inv(),
                self.text() == text,
                first <= self.current <= text.len(),
                run_len(text, first, Run::Word) == (self.current - first) + run_len(
                    text,
                    self.current as int,
                    Run::Word,
                ),
                self.source == old(self).source,
                self.tokens == old(self).tokens,
                self.start == old(self).start,
                self.line == old(self).line,
            decreases text.len() - self.current,
        {
            self.advance();
        }
        let val = string_of(&self.source, self.start, self.current);
        assert(self.source@.subrange(self.start as int, self.current as int) =~= text.subrange(
            self.start as int,
            self.current as int,
        ));
        let keyword: Option<TokenType> = match self.keywords.get(val.as_str()) {
            Some(token_type) => Some(*token_type),
            None => None,
        };
        match keyword {
            Some(token_type) => self.add_token(token_type),
            None => self.add_token_lit(TokenType::Identifier, Some(Object::IdentifierVal(val))),
        }
    }

    /// Scans the rest of a string literal whose opening quote has been read.
    /// Appends its token if the literal is closed, and reports it if the text
    /// ends first. The line counter goes up by the newlines inside.
    fn string(&mut self) -> (r: Result<(), String>)
        requires
            old(self).inv(),
            old(self).current == old(self).start + 1,
            old(self).line <= old(self).start + 1,
        ensures
            final(self).inv(),
            final(self).source == old(self).source,
            final(self).start == old(self).start,
            final(self).line == old(self).line + count_newlines(
                old(self).text().subrange(
                    old(self).start + 1,
                    closing_quote(old(self).text(), old(self).start as int),
                ),
            ),
            match r {
                Ok(_) => {
                    &&& closing_quote(old(self).text(), old(self).start as int)
                        < old(self).text().len()
                    &&& final(self).current == closing_quote(
                        old(self).text(),
                        old(self).start as int,
                    ) + 1
                    &&& token_views(final(self).tokens@) == token_views(old(self).tokens@).push(
                        TokenView {
                            token_type: TokenType::String,
                            lexeme: old(self).text().subrange(
                                old(self).start as int,
                                final(self).current as int,
                            ),
                            literal: ObjectView::StringVal(
                                old(self).text().subrange(
                                    old(self).start + 1,
                                    final(self).current - 1,
                                ),
                            ),
                            line: old(self).line as nat,
                        },
                    )
                },
                Err(message) => {
                    &&& closing_quote(old(self).text(), old(self).start as int)
                        == old(self).text().len()
                    &&& final(self).current == old(self).text().len()
                    &&& message@ == unterminated_string(final(self).line as nat)
                    &&& final(self).tokens == old(self).tokens
                },
            },
    {
        let ghost text = self.text();
        let ghost first = self.start + 1;
        let mut newlines: usize = 0;
        while self.peek() != '"' && !self.is_at_end()
            invariant
                self.inv(),
                self.text() == text,
                first <= self.current <= text.len(),
                run_len(text, first, Run::Quoted) == (self.current - first) + run_len(
                    text,
                    self.current as int,
                    Run::Quoted,
                ),
                newlines == count_newlines(text.subrange(first, self.current as int)),
                newlines <= self.current - first,
                self.source == old(self).source,
                self.tokens == old(self).tokens,
                self.start == old(self).start,
                self.line == old(self).line,
            decreases text.len() - self.current,
        {
            assert(text.subrange(first, self.current + 1).drop_last() =~= text.subrange(
                first,
                self.current as int,
            ));
            assert(self.source@.len() == self.source.len());
            if self.peek() == '\n' {
                newlines += 1;
            }
            self.advance();
        }
        if self.is_at_end() {
            self.line += newlines;
            return Err(unterminated_string_message(self.line));
        }
        self.advance();
        let value = string_of(&self.source, self.start + 1, self.current - 1);
        assert(self.source@.subrange(self.start + 1, self.current - 1) =~= text.subrange(
            self.start + 1,
            self.current - 1,
        ));
        self.add_token_lit(TokenType::String, Some(Object::StringVal(value)));
        self.line += newlines;
        Ok(())
    }

    /// Scans one step from the cursor: white space, a comment, a token, or a
    /// character that begins no token.
    fn scan_token(&mut self) -> (r: Result<(), String>)
        requires
            old(self).wf(),
            old(self).start == old(self).current,
            old(self).current < old(self).text().len(),
        ensures
            final(self).wf(),
            final(self).source == old(self).source,
            final(self).current == old(self).current + consumed(
                old(self).text(),
                old(self).current as int,
            ),
            final(self).line == old(self).line + count_newlines(
                old(self).text().subrange(old(self).current as int, final(self).current as int),
            ),
            match lexed(old(self).text(), old(self).current as int, old(self).line as nat) {
                Lexed::Skip => r is Ok && final(self).tokens == old(self).tokens,
                Lexed::Emit(token) => r is Ok && token_views(final(self).tokens@) == token_views(
                    old(self).tokens@,
                ).push(token),
                Lexed::Fault(message) => r is Err && r->Err_0@ == message && final(self).tokens
                    == old(self).tokens,
            },
    {
        let ghost text = self.text();
        let ghost pos = self.current as int;
        proof {
            lemma_consumed_bounds(text, pos);
            lemma_step_newlines(text, pos);
            lemma_count_newlines_split(text, 0, pos, pos + consumed(text, pos));
            lemma_count_newlines_bounds(text.subrange(0, pos));
            assert(self.source@.len() == self.source.len());
        }
        let character = self.advance();
        match character {
            '(' => self.add_token(TokenType::LeftParen),
            ')' => self.add_token(TokenType::RightParen),
            '{' => self.add_token(TokenType::LeftBrace),
            '}' => self.add_token(TokenType::RightBrace),
            ',' => self.add_token(TokenType::Comma),
            '.' => self.add_token(TokenType::Dot),
            '-' => self.add_token(TokenType::Minus),
            '+' => self.add_token(TokenType::Plus),
            ';' => self.add_token(TokenType::Semicolon),
            '*' => self.add_token(TokenType::Star),
            ' ' => {},
            '\r' => {},
            '\t' => {},
            '\n' => self.line += 1,
            '!' => {
                if self.char_match('=') {
                    self.add_token(TokenType::BangEqual);
                } else {
                    self.add_token(TokenType::Bang);
                }
            },
            '=' => {
                if self.char_match('=') {
                    self.add_token(TokenType::EqualEqual);
                } else {
                    self.add_token(TokenType::Equal);
                }
            },
            '<' => {
                if self.char_match('=') {
                    self.add_token(TokenType::LessEqual);
                } else {
                    self.add_token(TokenType::Less);
                }
            },
            '>' => {
                if self.char_match('=') {
                    self.add_token(TokenType::GreaterEqual);
                } else {
                    self.add_token(TokenType::Greater);
                }
            },
            '/' => {
                if self.char_match('/') {
                    let ghost first = self.current as int;
                    while self.peek() != '\n' && !self.is_at_end()
                        invariant
                            self.inv(),
                            self.text() == text,
                            first <= self.current <= text.len(),
                            run_len(text, first, Run::Comment) == (self.current - first)
                                + run_len(text, self.current as int, Run::Comment),
                            self.source == old(self).source,
                            self.tokens == old(self).tokens,
                            self.start == old(self).start,
                            self.line == old(self).line,
                        decreases text.len() - self.current,
                    {
                        self.advance();
                    }
                } else {
                    self.add_token(TokenType::Slash);
                }
            },
            '"' => {
                return self.string();
            },
            _ => {
                if is_digit(character) {
                    self.number();
                } else if is_alpha(character) {
                    self.identifier();
                } else {
                    return Err(unexpected_character_message(self.line));
                }
            },
        }
        Ok(())
    }

    /// A scanner at the start of `source`, on line 1, with no token yet.
    pub fn new(source: &str) -> (scanner: Self)
        ensures
            scanner.wf(),
            scanner@ == (ScannerView {
                source: source@,
                tokens: Seq::empty(),
                current: 0,
                line: 1,
            }),
    {
        let mut chars = chars_of(source);
        chars.push('\0');
        let scanner = Scanner {
            source: chars,
            tokens: Vec::new(),
            start: 0,
            current: 0,
            line: 1,
            keywords: get_keywords_from_hashmap(),
        };
        assert(scanner.text() =~= source@);
        assert(token_views(scanner.tokens@) =~= Seq::<TokenView>::empty());
        scanner
    }

    /// Scans the text from the cursor to its end, then appends the
    /// end-of-input token. Returns a copy of all tokens gathered, or, if this
    /// pass met a lexical error, the report of its errors: each message
    /// followed by a newline.
    ///
    /// On a scanner fresh from [`Scanner::new`] the result is [`scan`] of the
    /// source text.
    pub fn scan_tokens(&mut self) -> (result: Result<Vec<Token>, String>)
        requires
            old(self).wf(),
        ensures
            final(self).wf(),
            final(self)@.source == old(self)@.source,
            final(self)@.current == old(self)@.source.len(),
            ({
                let pass = scan_from(old(self)@.source, old(self)@.current as int, old(self)@.line);
                &&& final(self)@.line == pass.line
                &&& final(self)@.tokens == old(self)@.tokens + pass.tokens.push(eof(pass.line))
                &&& match result {
                    Ok(tokens) => {
                        &&& pass.errors.len() == 0
                        &&& token_views(tokens@) == final(self)@.tokens
                        &&& forall|i: int|
                            0 <= i < tokens@.len() ==> (#[trigger] tokens@[i])@
                                == final(self)@.tokens[i]
                    },
                    Err(message) => pass.errors.len() > 0 && message@ == report(pass.errors),
                }
            }),
            old(self)@.current == 0 && old(self)@.tokens.len() == 0 ==> result_view(result)
                == scan(old(self)@.source),
    {
        let ghost text = self.text();
        let ghost before = token_views(self.tokens@);
        let ghost pass = scan_from(text, self.current as int, self.line as nat);
        let mut errors: Vec<String> = Vec::new();
        while !self.is_at_end()
            invariant
                self.wf(),
                self.text() == text,
                token_views(self.tokens@) + scan_from(
                    text,
                    self.current as int,
                    self.line as nat,
                ).tokens == before + pass.tokens,
                texts(errors@) + scan_from(text, self.current as int, self.line as nat).errors
                    == pass.errors,
                scan_from(text, self.current as int, self.line as nat).line == pass.line,
            decreases text.len() - self.current,
        {
            proof {
                lemma_consumed_bounds(text, self.current as int);
            }
            self.start = self.current;
            match self.scan_token() {
                Ok(_) => {},
                Err(e) => errors.push(e),
            }
        }
        let ghost seen = token_views(self.tokens@);
        self.tokens.push(
            Token {
                token_type: TokenType::Eof,
                lexeme: String::new(),
                literal: Object::IntVal(0),
                line: self.line,
            },
        );
        assert(token_views(self.tokens@) =~= seen.push(eof(pass.line)));
        if errors.len() > 0 {
            let mut joined = String::new();
            let mut i: usize = 0;
            while i < errors.len()
                invariant
                    i <= errors.len(),
                    joined@ == report(texts(errors@).subrange(0, i as int)),
                decreases errors.len() - i,
            {
                joined.append(errors[i].as_str());
                joined.append("\n");
                i += 1;
                assert(texts(errors@).subrange(0, i as int).drop_last()
                    =~= texts(errors@).subrange(0, i - 1));
            }
            assert(texts(errors@).subrange(0, errors.len() as int) =~= texts(errors@));
            return Err(joined);
        }
        Ok(clone_tokens(&self.tokens))
    }
}

} // verus!

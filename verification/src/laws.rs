//! What holds of every scan, proved from the grammar.

use crate::grammar::{
    alpha, blank, closing_quote, comment_at, consumed, count_newlines, digit, double_symbol, eof,
    followed_by, in_run, keywords, lemma_consumed_bounds, lemma_count_newlines_split,
    lemma_run_len, lemma_step_newlines, lexed, line_at, number_len, report, run_len, scan,
    scan_from, single_symbol, unexpected_character, unterminated_string, visits, Lexed, Pass, Run,
};
use crate::token::{no_literal, ObjectView, TokenType, TokenView};
use vstd::prelude::*;

verus! {

/// Whether `token_type` is the category of a reserved word.
pub open spec fn reserved(token_type: TokenType) -> bool {
    match token_type {
        TokenType::And
        | TokenType::Class
        | TokenType::Else
        | TokenType::False
        | TokenType::Fn
        | TokenType::For
        | TokenType::If
        | TokenType::Nil
        | TokenType::Or
        | TokenType::Print
        | TokenType::Return
        | TokenType::Super
        | TokenType::This
        | TokenType::True
        | TokenType::Var
        | TokenType::While => true,
        _ => false,
    }
}

/// Every spelling in the keyword table stands for the category of a reserved
/// word: never for an identifier, a literal, a symbol or the end of input.
pub proof fn law_keywords_are_reserved(text: Seq<char>)
    requires
        keywords().contains_key(text),
    ensures
        reserved(keywords()[text]),
{
}

/// The keyword table holds the sixteen reserved spellings and nothing else,
/// and no two of them share an entry: each spelling stands for its own
/// category.
pub proof fn law_keyword_table()
    ensures
        forall|text: Seq<char>| #[trigger]
            keywords().contains_key(text) <==> (text == "and"@ || text == "class"@ || text
                == "else"@ || text == "false"@ || text == "fn"@ || text == "for"@ || text == "if"@
                || text == "nil"@ || text == "or"@ || text == "print"@ || text == "return"@
                || text == "super"@ || text == "this"@ || text == "true"@ || text == "var"@
                || text == "while"@),
        keywords()["and"@] == TokenType::And,
        keywords()["class"@] == TokenType::Class,
        keywords()["else"@] == TokenType::Else,
        keywords()["false"@] == TokenType::False,
        keywords()["fn"@] == TokenType::Fn,
        keywords()["for"@] == TokenType::For,
        keywords()["if"@] == TokenType::If,
        keywords()["nil"@] == TokenType::Nil,
        keywords()["or"@] == TokenType::Or,
        keywords()["print"@] == TokenType::Print,
        keywords()["return"@] == TokenType::Return,
        keywords()["super"@] == TokenType::Super,
        keywords()["this"@] == TokenType::This,
        keywords()["true"@] == TokenType::True,
        keywords()["var"@] == TokenType::Var,
        keywords()["while"@] == TokenType::While,
{
    reveal_strlit("and");
    reveal_strlit("class");
    reveal_strlit("else");
    reveal_strlit("false");
    reveal_strlit("fn");
    reveal_strlit("for");
    reveal_strlit("if");
    reveal_strlit("nil");
    reveal_strlit("or");
    reveal_strlit("print");
    reveal_strlit("return");
    reveal_strlit("super");
    reveal_strlit("this");
    reveal_strlit("true");
    reveal_strlit("var");
    reveal_strlit("while");
    // No two spellings are the same text: they differ in length, or in the
    // character named below.
    assert("and"@.len() == 3);
    assert("class"@.len() == 5);
    assert("else"@.len() == 4);
    assert("false"@.len() == 5);
    assert("fn"@.len() == 2);
    assert("for"@.len() == 3);
    assert("if"@.len() == 2);
    assert("nil"@.len() == 3);
    assert("or"@.len() == 2);
    assert("print"@.len() == 5);
    assert("return"@.len() == 6);
    assert("super"@.len() == 5);
    assert("this"@.len() == 4);
    assert("true"@.len() == 4);
    assert("var"@.len() == 3);
    assert("while"@.len() == 5);
    assert("and"@[0] != "for"@[0]);
    assert("and"@[0] != "nil"@[0]);
    assert("and"@[0] != "var"@[0]);
    assert("class"@[0] != "false"@[0]);
    assert("class"@[0] != "print"@[0]);
    assert("class"@[0] != "super"@[0]);
    assert("class"@[0] != "while"@[0]);
    assert("else"@[0] != "this"@[0]);
    assert("else"@[0] != "true"@[0]);
    assert("false"@[0] != "print"@[0]);
    assert("false"@[0] != "super"@[0]);
    assert("false"@[0] != "while"@[0]);
    assert("fn"@[0] != "if"@[0]);
    assert("fn"@[0] != "or"@[0]);
    assert("for"@[0] != "nil"@[0]);
    assert("for"@[0] != "var"@[0]);
    assert("if"@[0] != "or"@[0]);
    assert("nil"@[0] != "var"@[0]);
    assert("print"@[0] != "super"@[0]);
    assert("print"@[0] != "while"@[0]);
    assert("super"@[0] != "while"@[0]);
    assert("this"@[1] != "true"@[1]);
}

/// A word that is a reserved spelling yields the keyword of that spelling,
/// without a literal value, and never an identifier; any other word yields an
/// identifier that carries its exact spelling. Either way the word is the
/// longest run of letters, digits and underscores that starts there.
pub proof fn law_words(src: Seq<char>, pos: int, line: nat)
    requires
        0 <= pos < src.len(),
        alpha(src[pos]),
    ensures
        consumed(src, pos) == 1 + run_len(src, pos + 1, Run::Word),
        pos + consumed(src, pos) == src.len() || !in_run(Run::Word, src[pos + consumed(src, pos)]),
        lexed(src, pos, line) is Emit,
        ({
            let text = src.subrange(pos, pos + consumed(src, pos));
            let token = lexed(src, pos, line)->Emit_0;
            &&& token.lexeme == text
            &&& token.line == line
            &&& keywords().contains_key(text) ==> {
                &&& token.token_type == keywords()[text]
                &&& token.token_type != TokenType::Identifier
                &&& token.literal == no_literal()
            }
            &&& !keywords().contains_key(text) ==> {
                &&& token.token_type == TokenType::Identifier
                &&& token.literal == ObjectView::IdentifierVal(text)
            }
        }),
{
    lemma_run_len(src, pos + 1, Run::Word);
    let text = src.subrange(pos, pos + consumed(src, pos));
    if keywords().contains_key(text) {
        law_keywords_are_reserved(text);
    }
}

/// Operators are matched at their longest: where `!`, `=`, `<` or `>` is
/// followed by `=`, the two characters are one token; where it is not, the
/// character alone is a token.
pub proof fn law_operators_take_the_longest_match(src: Seq<char>, pos: int, line: nat)
    requires
        0 <= pos < src.len(),
        double_symbol(src[pos]) is Some,
    ensures
        followed_by(src, pos, '=') ==> consumed(src, pos) == 2 && lexed(src, pos, line)
            == Lexed::Emit(
            TokenView {
                token_type: double_symbol(src[pos])->0,
                lexeme: seq![src[pos], '='],
                literal: no_literal(),
                line,
            },
        ),
        !followed_by(src, pos, '=') ==> consumed(src, pos) == 1 && lexed(src, pos, line)
            == Lexed::Emit(
            TokenView {
                token_type: single_symbol(src[pos])->0,
                lexeme: seq![src[pos]],
                literal: no_literal(),
                line,
            },
        ),
{
    if followed_by(src, pos, '=') {
        assert(src.subrange(pos, pos + 2) =~= seq![src[pos], '=']);
    } else {
        assert(src.subrange(pos, pos + 1) =~= seq![src[pos]]);
    }
}

/// A line comment yields no token: two slashes and everything up to the next
/// newline, or to the end of the text, are skipped, and the newline itself is
/// left for the next step.
pub proof fn law_comments_yield_nothing(src: Seq<char>, pos: int, line: nat)
    requires
        0 <= pos < src.len(),
        src[pos] == '/',
        followed_by(src, pos, '/'),
    ensures
        lexed(src, pos, line) == Lexed::Skip,
        pos + 2 <= pos + consumed(src, pos) <= src.len(),
        forall|i: int| pos <= i < pos + consumed(src, pos) ==> src[i] != '\n',
        pos + consumed(src, pos) == src.len() || src[pos + consumed(src, pos)] == '\n',
{
    lemma_run_len(src, pos + 2, Run::Comment);
}

/// A slash that no second slash follows is a token of its own.
pub proof fn law_lone_slash_is_a_token(src: Seq<char>, pos: int, line: nat)
    requires
        0 <= pos < src.len(),
        src[pos] == '/',
        !followed_by(src, pos, '/'),
    ensures
        consumed(src, pos) == 1,
        lexed(src, pos, line) == Lexed::Emit(
            TokenView {
                token_type: TokenType::Slash,
                lexeme: seq!['/'],
                literal: no_literal(),
                line,
            },
        ),
{
    assert(src.subrange(pos, pos + 1) =~= seq!['/']);
}

/// A string literal that is closed yields one token for the whole of it, the
/// closing quote included. The lexeme keeps the quotes, the literal value is
/// the text between them, unchanged, newlines and all; the token's line is
/// that of the opening quote, and the line counter goes up by the number of
/// newlines between the quotes.
pub proof fn law_string_literals(src: Seq<char>, pos: int, line: nat)
    requires
        0 <= pos < src.len(),
        src[pos] == '"',
        closing_quote(src, pos) < src.len(),
    ensures
        pos < closing_quote(src, pos),
        src[closing_quote(src, pos)] == '"',
        forall|i: int| pos < i < closing_quote(src, pos) ==> src[i] != '"',
        consumed(src, pos) == closing_quote(src, pos) + 1 - pos,
        lexed(src, pos, line) == Lexed::Emit(
            TokenView {
                token_type: TokenType::String,
                lexeme: src.subrange(pos, closing_quote(src, pos) + 1),
                literal: ObjectView::StringVal(src.subrange(pos + 1, closing_quote(src, pos))),
                line,
            },
        ),
        count_newlines(src.subrange(pos, pos + consumed(src, pos))) == count_newlines(
            src.subrange(pos + 1, closing_quote(src, pos)),
        ),
{
    lemma_run_len(src, pos + 1, Run::Quoted);
    lemma_step_newlines(src, pos);
}

/// A string literal that nothing closes is a lexical error: the step runs to
/// the end of the text and reports the line on which the text ends.
pub proof fn law_unterminated_strings(src: Seq<char>, pos: int, line: nat)
    requires
        0 <= pos < src.len(),
        src[pos] == '"',
        forall|i: int| pos < i < src.len() ==> src[i] != '"',
    ensures
        pos + consumed(src, pos) == src.len(),
        lexed(src, pos, line) == Lexed::Fault(
            unterminated_string(line + count_newlines(src.subrange(pos, src.len() as int))),
        ),
{
    lemma_run_len(src, pos + 1, Run::Quoted);
}

/// Whether all of `text[from..to]` is decimal digits.
pub open spec fn all_digits(text: Seq<char>, from: int, to: int) -> bool {
    forall|i: int| from <= i < to ==> digit(#[trigger] text[i])
}

/// Whether `text` is a decimal numeral: one or more digits, or one or more
/// digits, a point, and one or more digits.
pub open spec fn decimal_numeral(text: Seq<char>) -> bool {
    ||| text.len() > 0 && all_digits(text, 0, text.len() as int)
    ||| exists|point: int|
        0 < point < text.len() - 1 && #[trigger] text[point] == '.' && all_digits(text, 0, point)
            && all_digits(text, point + 1, text.len() as int)
}

/// A digit starts a number token. Its lexeme is a decimal numeral, the longest
/// that starts there (a point counts only if a digit follows it), and its
/// literal value is that numeral.
pub proof fn law_numbers(src: Seq<char>, pos: int, line: nat)
    requires
        0 <= pos < src.len(),
        digit(src[pos]),
    ensures
        consumed(src, pos) == number_len(src, pos),
        pos + consumed(src, pos) <= src.len(),
        lexed(src, pos, line) == Lexed::Emit(
            TokenView {
                token_type: TokenType::Number,
                lexeme: src.subrange(pos, pos + consumed(src, pos)),
                literal: ObjectView::FloatVal(src.subrange(pos, pos + consumed(src, pos))),
                line,
            },
        ),
        decimal_numeral(src.subrange(pos, pos + consumed(src, pos))),
        pos + consumed(src, pos) < src.len() ==> !digit(src[pos + consumed(src, pos)]),
{
    lemma_consumed_bounds(src, pos);
    lemma_run_len(src, pos + 1, Run::Digits);
    let whole = 1 + run_len(src, pos + 1, Run::Digits) as int;
    let point = pos + whole;
    let text = src.subrange(pos, pos + consumed(src, pos));
    if point + 1 < src.len() && src[point] == '.' && digit(src[point + 1]) {
        lemma_run_len(src, point + 1, Run::Digits);
        assert(text[whole] == '.');
        assert(all_digits(text, 0, whole));
        assert(all_digits(text, whole + 1, text.len() as int));
    } else {
        assert(all_digits(text, 0, text.len() as int));
    }
}

/// A character that begins no token is a lexical error, reported with the
/// line it stands on; the step consumes that character alone.
pub proof fn law_unexpected_characters(src: Seq<char>, pos: int, line: nat)
    requires
        0 <= pos < src.len(),
        !blank(src[pos]),
        src[pos] != '\n',
        src[pos] != '"',
        !digit(src[pos]),
        !alpha(src[pos]),
        single_symbol(src[pos]) is None,
    ensures
        consumed(src, pos) == 1,
        lexed(src, pos, line) == Lexed::Fault(unexpected_character(line)),
{
}

/// White space yields no token, and only the newline moves the line counter.
pub proof fn law_white_space(src: Seq<char>, pos: int, line: nat)
    requires
        0 <= pos < src.len(),
        blank(src[pos]) || src[pos] == '\n',
    ensures
        consumed(src, pos) == 1,
        lexed(src, pos, line) == Lexed::Skip,
        count_newlines(src.subrange(pos, pos + 1)) == if src[pos] == '\n' {
            1nat
        } else {
            0nat
        },
{
    lemma_step_newlines(src, pos);
}

/// The lexeme of a token is the text that its step consumed, and its line is
/// the line of its first character.
pub proof fn law_lexeme_is_the_consumed_text(src: Seq<char>, pos: int, line: nat)
    requires
        0 <= pos < src.len(),
        lexed(src, pos, line) is Emit,
    ensures
        lexed(src, pos, line)->Emit_0.lexeme == src.subrange(pos, pos + consumed(src, pos)),
        lexed(src, pos, line)->Emit_0.line == line,
        1 <= consumed(src, pos),
        pos + consumed(src, pos) <= src.len(),
{
    lemma_consumed_bounds(src, pos);
}

/// Punctuation that is a token by itself, whatever follows it.
pub open spec fn punctuation(c: char) -> bool {
    c == '(' || c == ')' || c == '{' || c == '}' || c == ',' || c == '.' || c == '-' || c == '+'
        || c == ';' || c == '*' || c == '/'
}

/// The token for the punctuation character `c` on line `line`.
pub open spec fn punctuation_token(c: char, line: nat) -> TokenView {
    TokenView {
        token_type: single_symbol(c)->0,
        lexeme: seq![c],
        literal: no_literal(),
        line,
    }
}

proof fn lemma_punctuation_from(src: Seq<char>, pos: int)
    requires
        0 <= pos <= src.len(),
        forall|i: int| 0 <= i < src.len() ==> punctuation(#[trigger] src[i]),
        forall|i: int| 0 <= i < src.len() - 1 ==> !(#[trigger] src[i] == '/' && src[i + 1] == '/'),
    ensures
        scan_from(src, pos, 1) == (Pass {
            tokens: Seq::new((src.len() - pos) as nat, |i: int| punctuation_token(src[pos + i], 1)),
            errors: Seq::empty(),
            line: 1,
        }),
    decreases src.len() - pos,
{
    let expected = Seq::new((src.len() - pos) as nat, |i: int| punctuation_token(src[pos + i], 1));
    if pos < src.len() {
        let c = src[pos];
        assert(src.subrange(pos, pos + 1) =~= seq![c]);
        lemma_step_newlines(src, pos);
        lemma_punctuation_from(src, pos + 1);
        let rest = scan_from(src, pos + 1, 1);
        assert(seq![punctuation_token(c, 1)] + rest.tokens =~= expected);
    } else {
        assert(expected =~= Seq::<TokenView>::empty());
    }
}

/// A text made only of punctuation characters, in which no slash follows a
/// slash, scans to one token for each character, in the order of the text,
/// and then the end-of-input token.
pub proof fn law_punctuation_scans_one_token_each(src: Seq<char>)
    requires
        forall|i: int| 0 <= i < src.len() ==> punctuation(#[trigger] src[i]),
        forall|i: int| 0 <= i < src.len() - 1 ==> !(#[trigger] src[i] == '/' && src[i + 1] == '/'),
    ensures
        scan(src) is Ok,
        scan(src)->Ok_0.len() == src.len() + 1,
        forall|i: int|
            0 <= i < src.len() ==> #[trigger] scan(src)->Ok_0[i] == punctuation_token(src[i], 1),
        scan(src)->Ok_0[src.len() as int] == eof(1),
{
    lemma_punctuation_from(src, 0);
}

/// The line counter at the end of a pass is the counter at its start plus
/// the number of newlines in the text that it went over.
pub proof fn law_final_line(src: Seq<char>, pos: int, line: nat)
    requires
        0 <= pos <= src.len(),
    ensures
        scan_from(src, pos, line).line == line + count_newlines(
            src.subrange(pos, src.len() as int),
        ),
    decreases src.len() - pos,
{
    if pos < src.len() {
        lemma_consumed_bounds(src, pos);
        let next = pos + consumed(src, pos);
        law_final_line(src, next, line + count_newlines(src.subrange(pos, next)));
        lemma_count_newlines_split(src, pos, next, src.len() as int);
    } else {
    }
}

proof fn lemma_no_eof_in_pass(src: Seq<char>, pos: int, line: nat)
    requires
        0 <= pos <= src.len(),
    ensures
        forall|i: int|
            0 <= i < scan_from(src, pos, line).tokens.len() ==> (#[trigger] scan_from(
                src,
                pos,
                line,
            ).tokens[i]).token_type != TokenType::Eof,
    decreases src.len() - pos,
{
    if pos < src.len() {
        lemma_consumed_bounds(src, pos);
        let next = pos + consumed(src, pos);
        let text = src.subrange(pos, next);
        lemma_no_eof_in_pass(src, next, line + count_newlines(text));
        if keywords().contains_key(text) {
            law_keywords_are_reserved(text);
        }
    }
}

/// The tokens of a pass that succeeds end with the end-of-input token, which
/// carries the line on which the text ends, an empty lexeme and no literal
/// value; no token before it is an end-of-input token. This holds of every
/// text, the empty one and one of white space alone included.
pub proof fn law_tokens_end_with_one_eof(src: Seq<char>)
    requires
        scan(src) is Ok,
    ensures
        scan(src)->Ok_0.len() >= 1,
        scan(src)->Ok_0.last() == eof(line_at(src, src.len() as int)),
        forall|i: int|
            0 <= i < scan(src)->Ok_0.len() - 1 ==> (#[trigger] scan(src)->Ok_0[i]).token_type
                != TokenType::Eof,
{
    lemma_no_eof_in_pass(src, 0, 1);
    law_final_line(src, 0, 1);
}

/// A pass fails if and only if it meets a lexical error, and a pass that
/// fails hands back no token: only the report of all its errors.
pub proof fn law_any_error_fails_the_pass(src: Seq<char>)
    ensures
        scan(src) is Err <==> scan_from(src, 0, 1).errors.len() > 0,
        scan(src) is Err ==> scan(src)->Err_0 == report(scan_from(src, 0, 1).errors),
{
}

/// The steps of a pass lie end to end: from wherever a pass stands inside the
/// text, it comes to the end of the text exactly.
pub proof fn law_pass_reaches_the_end(src: Seq<char>, from: int)
    requires
        0 <= from <= src.len(),
    ensures
        visits(src, from, src.len() as int),
    decreases src.len() - from,
{
    if from < src.len() {
        lemma_consumed_bounds(src, from);
        law_pass_reaches_the_end(src, from + consumed(src, from));
    }
}

proof fn lemma_visited_step_is_gathered(src: Seq<char>, from: int, pos: int)
    requires
        0 <= from <= pos < src.len(),
        visits(src, from, pos),
    ensures
        match lexed(src, pos, line_at(src, pos)) {
            Lexed::Skip => true,
            Lexed::Emit(token) => scan_from(src, from, line_at(src, from)).tokens.contains(token),
            Lexed::Fault(message) => scan_from(src, from, line_at(src, from)).errors.contains(
                message,
            ),
        },
    decreases pos - from,
{
    lemma_consumed_bounds(src, from);
    let line = line_at(src, from);
    let next = from + consumed(src, from);
    let rest = scan_from(src, next, line + count_newlines(src.subrange(from, next)));
    lemma_count_newlines_split(src, 0, from, next);
    if from == pos {
        match lexed(src, pos, line) {
            Lexed::Skip => {},
            Lexed::Emit(token) => {
                assert((seq![token] + rest.tokens)[0] == token);
            },
            Lexed::Fault(message) => {
                assert((seq![message] + rest.errors)[0] == message);
            },
        }
    } else {
        assert(visits(src, next, pos));
        lemma_visited_step_is_gathered(src, next, pos);
        match lexed(src, pos, line_at(src, pos)) {
            Lexed::Skip => {},
            Lexed::Emit(token) => {
                let i = choose|i: int| 0 <= i < rest.tokens.len() && rest.tokens[i] == token;
                match lexed(src, from, line) {
                    Lexed::Emit(first) => {
                        assert((seq![first] + rest.tokens)[i + 1] == token);
                    },
                    _ => {},
                }
            },
            Lexed::Fault(message) => {
                let i = choose|i: int| 0 <= i < rest.errors.len() && rest.errors[i] == message;
                match lexed(src, from, line) {
                    Lexed::Fault(first) => {
                        assert((seq![first] + rest.errors)[i + 1] == message);
                    },
                    _ => {},
                }
            },
        }
    }
}

/// Nothing that a step yields is lost: if the pass over the whole text takes
/// a step at `pos`, the token of that step is among the tokens of the pass,
/// with the line of its first character, and the error of that step is among
/// its errors, so that the pass fails.
pub proof fn law_every_step_is_gathered(src: Seq<char>, pos: int)
    requires
        0 <= pos < src.len(),
        visits(src, 0, pos),
    ensures
        match lexed(src, pos, line_at(src, pos)) {
            Lexed::Skip => true,
            Lexed::Emit(token) => scan_from(src, 0, 1).tokens.contains(token),
            Lexed::Fault(message) => scan_from(src, 0, 1).errors.contains(message) && scan(
                src,
            ) is Err,
        },
{
    lemma_visited_step_is_gathered(src, 0, pos);
}

/// A string literal that nothing closes makes the pass fail, wherever in the
/// text the pass comes upon it.
pub proof fn law_unterminated_string_fails_the_pass(src: Seq<char>, pos: int)
    requires
        0 <= pos < src.len(),
        visits(src, 0, pos),
        src[pos] == '"',
        forall|i: int| pos < i < src.len() ==> src[i] != '"',
    ensures
        scan(src) is Err,
        scan_from(src, 0, 1).errors.contains(
            unterminated_string(line_at(src, src.len() as int)),
        ),
{
    law_unterminated_strings(src, pos, line_at(src, pos));
    law_every_step_is_gathered(src, pos);
    lemma_count_newlines_split(src, 0, pos, src.len() as int);
}

/// A character that begins no token makes the pass fail, with a report that
/// names the line of that character, wherever in the text the pass comes upon
/// it.
pub proof fn law_unexpected_character_fails_the_pass(src: Seq<char>, pos: int)
    requires
        0 <= pos < src.len(),
        visits(src, 0, pos),
        !blank(src[pos]),
        src[pos] != '\n',
        src[pos] != '"',
        !digit(src[pos]),
        !alpha(src[pos]),
        single_symbol(src[pos]) is None,
    ensures
        scan(src) is Err,
        scan_from(src, 0, 1).errors.contains(unexpected_character(line_at(src, pos))),
{
    law_every_step_is_gathered(src, pos);
}

} // verus!

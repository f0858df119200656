//! The scanner: holds the input as a sequence of characters and a cursor,
//! and produces one token per call to [`Lexer::next_token`].

use vstd::prelude::*;
use vstd::string::StrSliceExecFns;

pub mod token;

verus! {

use crate::lexer::token::TokenKind;
use crate::lexer::token::TokenTag;
use crate::lexer::token::Token;
use crate::lexer::token::lookup_identifier;
use crate::lexer::token::word_tag;

/// Whether a character is whitespace: exactly the Unicode `White_Space`
/// code points (which is what `char::is_whitespace` reports), so space,
/// tab, newline, carriage return, and the other Unicode space characters.
pub open spec fn is_space_char(c: char) -> bool {
    let n = c as u32;
    ||| (9 <= n && n <= 13)
    ||| n == 32
    ||| n == 0x85
    ||| n == 0xA0
    ||| n == 0x1680
    ||| (0x2000 <= n && n <= 0x200A)
    ||| n == 0x2028
    ||| n == 0x2029
    ||| n == 0x202F
    ||| n == 0x205F
    ||| n == 0x3000
}

/// Whether a character is a decimal digit `0` through `9`.
pub open spec fn is_digit_char(c: char) -> bool {
    48 <= c as u32 && c as u32 <= 57
}

/// Whether a character is alphabetic, as `char::is_alphabetic` classifies
/// it.  The Unicode `Alphabetic` table is left unstated; the scanner's
/// contracts are exact relative to this classification.
pub uninterp spec fn is_alpha_char(c: char) -> bool;

/// Whether a character is numeric, as `char::is_numeric` classifies it.
/// The Unicode table is left unstated, as for [`is_alpha_char`].
pub uninterp spec fn is_numeric_char(c: char) -> bool;

/// Relies on `char::is_alphabetic`: the result depends on the character
/// alone, and an alphabetic character is never whitespace (the Unicode
/// `Alphabetic` and `White_Space` properties are disjoint).
pub assume_specification[ char::is_alphabetic ](c: char) -> (r: bool)
    ensures
        r == is_alpha_char(c),
        r ==> !is_space_char(c),
;

/// Relies on `char::is_alphanumeric`, documented to return exactly
/// `is_alphabetic() || is_numeric()`; neither class contains a
/// whitespace character.
pub assume_specification[ char::is_alphanumeric ](c: char) -> (r: bool)
    ensures
        r == (is_alpha_char(c) || is_numeric_char(c)),
        r ==> !is_space_char(c),
;

/// Relies on `String::push`: appends the given character to the end of
/// the string.
pub assume_specification[ String::push ](s: &mut String, ch: char)
    ensures
        final(s)@ == old(s)@.push(ch),
;

/// Whether a character may start a word: alphabetic or `_`.
pub open spec fn is_word_start_char(c: char) -> bool {
    (is_alpha_char(c) || c == '_') && !is_space_char(c)
}

/// Whether a character may continue a word: alphanumeric or `_`.
pub open spec fn is_word_char(c: char) -> bool {
    (is_alpha_char(c) || is_numeric_char(c) || c == '_') && !is_space_char(c)
}

/// Whether a character may continue a number lexeme: a decimal digit
/// or `.`.
pub open spec fn is_number_char(c: char) -> bool {
    is_digit_char(c) || c == '.'
}

/// Checks whether a character is whitespace; see [`is_space_char`].
fn is_space(c: char) -> (r: bool)
    ensures
        r == is_space_char(c),
{
    let n = c as u32;
    (9 <= n && n <= 13) || n == 32 || n == 0x85 || n == 0xA0 || n == 0x1680 || (0x2000 <= n && n
        <= 0x200A) || n == 0x2028 || n == 0x2029 || n == 0x202F || n == 0x205F || n == 0x3000
}

/// Checks whether a character is a decimal digit; see [`is_digit_char`].
fn is_digit(c: char) -> (r: bool)
    ensures
        r == is_digit_char(c),
{
    let n = c as u32;
    48 <= n && n <= 57
}

/// The cursor position after skipping every consecutive whitespace
/// character from `pos` on.
pub open spec fn skip_ws_end(src: Seq<char>, pos: int) -> int
    decreases src.len() - pos,
{
    if 0 <= pos < src.len() && is_space_char(src[pos]) {
        skip_ws_end(src, pos + 1)
    } else {
        pos
    }
}

/// The end of the maximal run of word characters starting at `pos`.
pub open spec fn word_end(src: Seq<char>, pos: int) -> int
    decreases src.len() - pos,
{
    if 0 <= pos < src.len() && is_word_char(src[pos]) {
        word_end(src, pos + 1)
    } else {
        pos
    }
}

/// The end of the maximal run of number characters starting at `pos`.
pub open spec fn number_end(src: Seq<char>, pos: int) -> int
    decreases src.len() - pos,
{
    if 0 <= pos < src.len() && is_number_char(src[pos]) {
        number_end(src, pos + 1)
    } else {
        pos
    }
}

/// Bounds of [`skip_ws_end`]: skipping only moves the cursor forward,
/// and never past the end of the input.
pub proof fn lemma_skip_ws_end_bounds(src: Seq<char>, pos: int)
    requires
        0 <= pos <= src.len(),
    ensures
        pos <= skip_ws_end(src, pos) <= src.len(),
    decreases src.len() - pos,
{
    if pos < src.len() && is_space_char(src[pos]) {
        lemma_skip_ws_end_bounds(src, pos + 1);
    }
}

/// Bounds of [`word_end`], as for [`lemma_skip_ws_end_bounds`].
pub proof fn lemma_word_end_bounds(src: Seq<char>, pos: int)
    requires
        0 <= pos <= src.len(),
    ensures
        pos <= word_end(src, pos) <= src.len(),
    decreases src.len() - pos,
{
    if pos < src.len() && is_word_char(src[pos]) {
        lemma_word_end_bounds(src, pos + 1);
    }
}

/// Bounds of [`number_end`], as for [`lemma_skip_ws_end_bounds`].
pub proof fn lemma_number_end_bounds(src: Seq<char>, pos: int)
    requires
        0 <= pos <= src.len(),
    ensures
        pos <= number_end(src, pos) <= src.len(),
    decreases src.len() - pos,
{
    if pos < src.len() && is_number_char(src[pos]) {
        lemma_number_end_bounds(src, pos + 1);
    }
}

/// What one call to [`Lexer::next_token`] produces when the cursor stands
/// at `pos`: the token's tag, its literal text, and the cursor position
/// after the call.
///
/// Whitespace is skipped first.  If nothing remains the token is `Eof`
/// and the cursor does not move past the end.  `=` and `!` look one
/// character ahead for `=`.  The twelve remaining single-character
/// operators and delimiters map one-to-one.  A word-start character opens
/// a maximal word, classified by [`word_tag`]; a decimal digit opens a
/// maximal number lexeme.  Any other character is `Illegal`, consumed by
/// itself.
pub open spec fn spec_step(src: Seq<char>, pos: int) -> (TokenTag, Seq<char>, int) {
    let start = skip_ws_end(src, pos);
    if start >= src.len() {
        (TokenTag::Eof, "Eof"@, start)
    } else {
        let c = src[start];
        if c == '=' {
            if start + 1 < src.len() && src[start + 1] == '=' {
                (TokenTag::Equal, "=="@, start + 2)
            } else {
                (TokenTag::Assign, "="@, start + 1)
            }
        } else if c == '!' {
            if start + 1 < src.len() && src[start + 1] == '=' {
                (TokenTag::NotEqual, "!="@, start + 2)
            } else {
                (TokenTag::Bang, "!"@, start + 1)
            }
        } else if c == '+' {
            (TokenTag::Plus, "+"@, start + 1)
        } else if c == '-' {
            (TokenTag::Minus, "-"@, start + 1)
        } else if c == '*' {
            (TokenTag::Asterisk, "*"@, start + 1)
        } else if c == '/' {
            (TokenTag::Slash, "/"@, start + 1)
        } else if c == '<' {
            (TokenTag::LessThan, "<"@, start + 1)
        } else if c == '>' {
            (TokenTag::GreaterThan, ">"@, start + 1)
        } else if c == ';' {
            (TokenTag::Semicolon, ";"@, start + 1)
        } else if c == ',' {
            (TokenTag::Comma, ","@, start + 1)
        } else if c == '(' {
            (TokenTag::LParen, "("@, start + 1)
        } else if c == ')' {
            (TokenTag::RParen, ")"@, start + 1)
        } else if c == '{' {
            (TokenTag::LBrace, "{"@, start + 1)
        } else if c == '}' {
            (TokenTag::RBrace, "}"@, start + 1)
        } else if is_word_start_char(c) {
            let end = word_end(src, start);
            (word_tag(src.subrange(start, end)), src.subrange(start, end), end)
        } else if is_digit_char(c) {
            let end = number_end(src, start);
            (TokenTag::Number, src.subrange(start, end), end)
        } else {
            (TokenTag::Illegal, "Illegal"@, start + 1)
        }
    }
}

/// Progress of one scanning step: the cursor never moves backward or past
/// the end, moves strictly forward for every token but `Eof`, and stands
/// exactly at the end for `Eof`.
pub proof fn lemma_step_progress(src: Seq<char>, pos: int)
    requires
        0 <= pos <= src.len(),
    ensures
        pos <= spec_step(src, pos).2 <= src.len(),
        !(spec_step(src, pos).0 is Eof) ==> pos < spec_step(src, pos).2,
        spec_step(src, pos).0 is Eof ==> spec_step(src, pos).2 == src.len(),
{
    lemma_skip_ws_end_bounds(src, pos);
    let start = skip_ws_end(src, pos);
    if start < src.len() {
        let c = src[start];
        if is_word_start_char(c) {
            lemma_word_end_bounds(src, start + 1);
            assert(word_end(src, start) == word_end(src, start + 1));
        } else if is_digit_char(c) {
            lemma_number_end_bounds(src, start + 1);
            assert(number_end(src, start) == number_end(src, start + 1));
        }
    }
}

/// The whole stream of tokens scanned from `pos` to the end of the
/// input, each as its tag and literal text, closed by the single `Eof`
/// token.
pub open spec fn spec_tokens(src: Seq<char>, pos: int) -> Seq<(TokenTag, Seq<char>)>
    decreases src.len() - pos
        when 0 <= pos <= src.len()
        via spec_tokens_decreases
{
    let step = spec_step(src, pos);
    if step.0 is Eof {
        seq![(TokenTag::Eof, "Eof"@)]
    } else {
        seq![(step.0, step.1)] + spec_tokens(src, step.2)
    }
}

#[via_fn]
proof fn spec_tokens_decreases(src: Seq<char>, pos: int) {
    lemma_step_progress(src, pos);
}

/// Maximality of [`skip_ws_end`]: everything skipped is whitespace, and
/// skipping stops only at the end of the input or at a character that is
/// not whitespace.
pub proof fn lemma_skip_ws_maximal(src: Seq<char>, pos: int)
    requires
        0 <= pos <= src.len(),
    ensures
        pos <= skip_ws_end(src, pos) <= src.len(),
        forall|i: int| pos <= i < skip_ws_end(src, pos) ==> is_space_char(src[i]),
        skip_ws_end(src, pos) == src.len() || !is_space_char(src[skip_ws_end(src, pos)]),
    decreases src.len() - pos,
{
    if pos < src.len() && is_space_char(src[pos]) {
        lemma_skip_ws_maximal(src, pos + 1);
    }
}

/// Maximal munch for words: the scanned word is the longest possible.
/// Every character before [`word_end`] is a word character, and the run
/// stops only at the end of the input or at a character that cannot
/// continue a word.
pub proof fn lemma_word_maximal(src: Seq<char>, pos: int)
    requires
        0 <= pos <= src.len(),
    ensures
        pos <= word_end(src, pos) <= src.len(),
        forall|i: int| pos <= i < word_end(src, pos) ==> is_word_char(src[i]),
        word_end(src, pos) == src.len() || !is_word_char(src[word_end(src, pos)]),
    decreases src.len() - pos,
{
    if pos < src.len() && is_word_char(src[pos]) {
        lemma_word_maximal(src, pos + 1);
    }
}

/// Maximal munch for number lexemes, as for [`lemma_word_maximal`]: the
/// run of digits and `.` characters is the longest possible.
pub proof fn lemma_number_maximal(src: Seq<char>, pos: int)
    requires
        0 <= pos <= src.len(),
    ensures
        pos <= number_end(src, pos) <= src.len(),
        forall|i: int| pos <= i < number_end(src, pos) ==> is_number_char(src[i]),
        number_end(src, pos) == src.len() || !is_number_char(src[number_end(src, pos)]),
    decreases src.len() - pos,
{
    if pos < src.len() && is_number_char(src[pos]) {
        lemma_number_maximal(src, pos + 1);
    }
}

/// End of input is a steady state: a step that produces `Eof` leaves the
/// cursor where it was, and every later step produces `Eof` again.
pub proof fn lemma_end_of_input_steady(src: Seq<char>, pos: int)
    requires
        0 <= pos <= src.len(),
        spec_step(src, pos).0 is Eof,
    ensures
        spec_step(src, spec_step(src, pos).2).0 is Eof,
        spec_step(src, spec_step(src, pos).2).2 == spec_step(src, pos).2,
        spec_tokens(src, spec_step(src, pos).2) == spec_tokens(src, pos),
{
    lemma_step_progress(src, pos);
    assert(skip_ws_end(src, src.len() as int) == src.len());
}

/// The direct mapping of the twelve single-character operators and
/// delimiters that take no lookahead.
pub open spec fn single_op_tag(c: char) -> Option<TokenTag> {
    if c == '+' {
        Some(TokenTag::Plus)
    } else if c == '-' {
        Some(TokenTag::Minus)
    } else if c == '*' {
        Some(TokenTag::Asterisk)
    } else if c == '/' {
        Some(TokenTag::Slash)
    } else if c == '<' {
        Some(TokenTag::LessThan)
    } else if c == '>' {
        Some(TokenTag::GreaterThan)
    } else if c == ';' {
        Some(TokenTag::Semicolon)
    } else if c == ',' {
        Some(TokenTag::Comma)
    } else if c == '(' {
        Some(TokenTag::LParen)
    } else if c == ')' {
        Some(TokenTag::RParen)
    } else if c == '{' {
        Some(TokenTag::LBrace)
    } else if c == '}' {
        Some(TokenTag::RBrace)
    } else {
        None
    }
}

/// A single-character operator or delimiter at the cursor scans to its
/// mapped tag, whatever follows it, and consumes exactly one character.
pub proof fn lemma_single_char_operator(src: Seq<char>, pos: int)
    requires
        0 <= pos < src.len(),
        single_op_tag(src[pos]) is Some,
    ensures
        spec_step(src, pos).0 == single_op_tag(src[pos])->0,
        spec_step(src, pos).1 == spec_render_of_tag(single_op_tag(src[pos])->0),
        spec_step(src, pos).2 == pos + 1,
{
    assert(!is_space_char(src[pos]));
    assert(skip_ws_end(src, pos) == pos);
}

/// The fixed literal of a payload-free token tag; the display text the
/// scanner gives the corresponding token.
pub open spec fn spec_render_of_tag(tag: TokenTag) -> Seq<char> {
    match tag {
        TokenTag::Illegal => "Illegal"@,
        TokenTag::Eof => "Eof"@,
        TokenTag::Identifier => Seq::<char>::empty(),
        TokenTag::Number => Seq::<char>::empty(),
        TokenTag::Assign => "="@,
        TokenTag::Plus => "+"@,
        TokenTag::Minus => "-"@,
        TokenTag::Bang => "!"@,
        TokenTag::Asterisk => "*"@,
        TokenTag::Slash => "/"@,
        TokenTag::Equal => "=="@,
        TokenTag::NotEqual => "!="@,
        TokenTag::LessThan => "<"@,
        TokenTag::GreaterThan => ">"@,
        TokenTag::Comma => ","@,
        TokenTag::Semicolon => ";"@,
        TokenTag::LParen => "("@,
        TokenTag::RParen => ")"@,
        TokenTag::LBrace => "{"@,
        TokenTag::RBrace => "}"@,
        TokenTag::Function => "fn"@,
        TokenTag::Let => "let"@,
        TokenTag::True => "true"@,
        TokenTag::False => "false"@,
        TokenTag::If => "if"@,
        TokenTag::Else => "else"@,
        TokenTag::Return => "return"@,
    }
}

/// `==` and `!=` are recognized only when both characters are present
/// and adjacent: `=` followed by anything else (or by nothing) scans to
/// `Assign`, and `!` to `Bang`, each consuming one character; the
/// two-character forms consume both.
pub proof fn lemma_lookahead_operators(src: Seq<char>, pos: int)
    requires
        0 <= pos < src.len(),
        src[pos] == '=' || src[pos] == '!',
    ensures
        ({
            let two = pos + 1 < src.len() && src[pos + 1] == '=';
            &&& src[pos] == '=' && two ==> spec_step(src, pos) == (TokenTag::Equal, "=="@, pos + 2)
            &&& src[pos] == '=' && !two ==> spec_step(src, pos) == (
                TokenTag::Assign,
                "="@,
                pos + 1,
            )
            &&& src[pos] == '!' && two ==> spec_step(src, pos) == (
                TokenTag::NotEqual,
                "!="@,
                pos + 2,
            )
            &&& src[pos] == '!' && !two ==> spec_step(src, pos) == (TokenTag::Bang, "!"@, pos + 1)
        }),
{
    assert(!is_space_char(src[pos]));
    assert(skip_ws_end(src, pos) == pos);
}

/// Skipping whitespace in a longer input, past a fixed prefix, skips
/// exactly what it skips in the suffix alone.
proof fn lemma_skip_ws_end_shift(a: Seq<char>, b: Seq<char>, pos: int)
    requires
        0 <= pos <= b.len(),
    ensures
        skip_ws_end(a + b, a.len() + pos) == a.len() + skip_ws_end(b, pos),
    decreases b.len() - pos,
{
    if pos < b.len() {
        assert((a + b)[a.len() + pos] == b[pos]);
        if is_space_char(b[pos]) {
            lemma_skip_ws_end_shift(a, b, pos + 1);
        }
    }
}

/// The word run in a longer input, past a fixed prefix, ends where it
/// ends in the suffix alone.
proof fn lemma_word_end_shift(a: Seq<char>, b: Seq<char>, pos: int)
    requires
        0 <= pos <= b.len(),
    ensures
        word_end(a + b, a.len() + pos) == a.len() + word_end(b, pos),
    decreases b.len() - pos,
{
    if pos < b.len() {
        assert((a + b)[a.len() + pos] == b[pos]);
        if is_word_char(b[pos]) {
            lemma_word_end_shift(a, b, pos + 1);
        }
    }
}

/// The number run in a longer input, past a fixed prefix, ends where it
/// ends in the suffix alone.
proof fn lemma_number_end_shift(a: Seq<char>, b: Seq<char>, pos: int)
    requires
        0 <= pos <= b.len(),
    ensures
        number_end(a + b, a.len() + pos) == a.len() + number_end(b, pos),
    decreases b.len() - pos,
{
    if pos < b.len() {
        assert((a + b)[a.len() + pos] == b[pos]);
        if is_number_char(b[pos]) {
            lemma_number_end_shift(a, b, pos + 1);
        }
    }
}

/// One scanning step never looks left of the cursor: stepping in a longer
/// input past a fixed prefix produces the same token as in the suffix
/// alone, at the shifted position.
proof fn lemma_step_shift(a: Seq<char>, b: Seq<char>, pos: int)
    requires
        0 <= pos <= b.len(),
    ensures
        spec_step(a + b, a.len() + pos).0 == spec_step(b, pos).0,
        spec_step(a + b, a.len() + pos).1 == spec_step(b, pos).1,
        spec_step(a + b, a.len() + pos).2 == a.len() + spec_step(b, pos).2,
{
    lemma_skip_ws_end_shift(a, b, pos);
    lemma_skip_ws_end_bounds(b, pos);
    let q = skip_ws_end(b, pos);
    if q < b.len() {
        assert((a + b)[a.len() + q] == b[q]);
        if q + 1 < b.len() {
            assert((a + b)[a.len() + q + 1] == b[q + 1]);
        }
        let c = b[q];
        if !(c == '=' || c == '!' || c == '+' || c == '-' || c == '*' || c == '/' || c == '<' || c
            == '>' || c == ';' || c == ',' || c == '(' || c == ')' || c == '{' || c == '}') {
            if is_word_start_char(c) {
                lemma_word_end_shift(a, b, q);
                lemma_word_end_bounds(b, q);
                assert((a + b).subrange(a.len() + q, a.len() + word_end(b, q)) =~= b.subrange(
                    q,
                    word_end(b, q),
                ));
            } else if is_digit_char(c) {
                lemma_number_end_shift(a, b, q);
                lemma_number_end_bounds(b, q);
                assert((a + b).subrange(a.len() + q, a.len() + number_end(b, q)) =~= b.subrange(
                    q,
                    number_end(b, q),
                ));
            }
        }
    }
}

/// The token stream never looks left of the cursor: the stream of a
/// longer input past a fixed prefix is the stream of the suffix alone.
proof fn lemma_tokens_shift(a: Seq<char>, b: Seq<char>, pos: int)
    requires
        0 <= pos <= b.len(),
    ensures
        spec_tokens(a + b, a.len() + pos) == spec_tokens(b, pos),
    decreases b.len() - pos,
{
    lemma_step_shift(a, b, pos);
    lemma_step_progress(b, pos);
    let st = spec_step(b, pos);
    if !(st.0 is Eof) {
        lemma_tokens_shift(a, b, st.2);
    }
}

/// Skipping whitespace is idempotent: nothing more is skipped from where
/// skipping stopped.
proof fn lemma_skip_ws_fix(src: Seq<char>, pos: int)
    requires
        0 <= pos <= src.len(),
    ensures
        skip_ws_end(src, skip_ws_end(src, pos)) == skip_ws_end(src, pos),
{
    lemma_skip_ws_maximal(src, pos);
}

/// The token stream from a position equals the stream from the first
/// non-whitespace position at or after it.
proof fn lemma_tokens_at_skip(src: Seq<char>, pos: int)
    requires
        0 <= pos <= src.len(),
    ensures
        spec_tokens(src, skip_ws_end(src, pos)) == spec_tokens(src, pos),
{
    lemma_skip_ws_end_bounds(src, pos);
    lemma_skip_ws_fix(src, pos);
    let q = skip_ws_end(src, pos);
    assert(spec_step(src, q).0 == spec_step(src, pos).0 && spec_step(src, q).1 == spec_step(
        src,
        pos,
    ).1 && spec_step(src, q).2 == spec_step(src, pos).2);
}

/// Whitespace in front of the input never produces a token and never
/// changes the tokens scanned: the stream of `ws + src` is the stream of
/// `src`, whatever whitespace `ws` holds.
pub proof fn lemma_whitespace_prefix(ws: Seq<char>, src: Seq<char>)
    requires
        forall|i: int| 0 <= i < ws.len() ==> is_space_char(ws[i]),
    ensures
        spec_tokens(ws + src, 0) == spec_tokens(src, 0),
{
    lemma_skip_ws_prefix_all(ws, src, 0);
    lemma_skip_ws_end_bounds(src, 0);
    let q = skip_ws_end(src, 0);
    lemma_tokens_at_skip(ws + src, 0);
    lemma_tokens_shift(ws, src, q);
    lemma_tokens_at_skip(src, 0);
}

/// Skipping whitespace from anywhere inside an all-whitespace prefix
/// runs through the prefix and on through the suffix's own leading
/// whitespace.
proof fn lemma_skip_ws_prefix_all(ws: Seq<char>, src: Seq<char>, j: int)
    requires
        0 <= j <= ws.len(),
        forall|i: int| 0 <= i < ws.len() ==> is_space_char(ws[i]),
    ensures
        skip_ws_end(ws + src, j) == ws.len() + skip_ws_end(src, 0),
    decreases ws.len() - j,
{
    if j < ws.len() {
        assert((ws + src)[j] == ws[j]);
        lemma_skip_ws_prefix_all(ws, src, j + 1);
    } else {
        lemma_skip_ws_end_shift(ws, src, 0);
    }
}

/// An input holding only whitespace scans to the end-of-input token and
/// nothing else.
pub proof fn lemma_whitespace_only(src: Seq<char>)
    requires
        forall|i: int| 0 <= i < src.len() ==> is_space_char(src[i]),
    ensures
        spec_tokens(src, 0) == seq![(TokenTag::Eof, "Eof"@)],
{
    assert(src + Seq::<char>::empty() =~= src);
    lemma_skip_ws_prefix_all(src, Seq::<char>::empty(), 0);
    assert(skip_ws_end(src, 0) == src.len());
}

/// Whether the scan, started at `pos`, passes through position `p`:
/// `p` is `pos` itself or a position some chain of whole tokens later.
/// The positions the scan passes through are exactly the boundaries
/// between tokens (with leading whitespace attached to the token after
/// it).
pub open spec fn scan_reaches(src: Seq<char>, pos: int, p: int) -> bool
    decreases src.len() - pos
        when 0 <= pos <= src.len()
        via scan_reaches_decreases
{
    pos == p || (!(spec_step(src, pos).0 is Eof) && scan_reaches(src, spec_step(src, pos).2, p))
}

#[via_fn]
proof fn scan_reaches_decreases(src: Seq<char>, pos: int, p: int) {
    lemma_step_progress(src, pos);
}

/// The scan passes through the position after any one token it scans.
pub proof fn lemma_reaches_next(src: Seq<char>, pos: int)
    requires
        0 <= pos <= src.len(),
        !(spec_step(src, pos).0 is Eof),
    ensures
        scan_reaches(src, pos, spec_step(src, pos).2),
{
    lemma_step_progress(src, pos);
    assert(scan_reaches(src, spec_step(src, pos).2, spec_step(src, pos).2));
}

/// Positions the scan passes through compose: passing through `b` from
/// `a`, and through `c` from `b`, it passes through `c` from `a`.
pub proof fn lemma_reaches_trans(src: Seq<char>, a: int, b: int, c: int)
    requires
        0 <= a <= src.len(),
        scan_reaches(src, a, b),
        scan_reaches(src, b, c),
    ensures
        scan_reaches(src, a, c),
    decreases src.len() - a,
{
    if a != b {
        lemma_step_progress(src, a);
        lemma_reaches_trans(src, spec_step(src, a).2, b, c);
    }
}

/// A position the scan passes through lies between the cursor and the
/// end of the input.
pub proof fn lemma_reaches_bounds(src: Seq<char>, pos: int, p: int)
    requires
        0 <= pos <= src.len(),
        scan_reaches(src, pos, p),
    ensures
        pos <= p <= src.len(),
    decreases src.len() - pos,
{
    if pos != p {
        lemma_step_progress(src, pos);
        lemma_reaches_bounds(src, spec_step(src, pos).2, p);
    }
}

/// Two inputs that agree below `p` skip whitespace identically, as long
/// as skipping stops strictly below `p`.
proof fn lemma_skip_ws_end_agree(src: Seq<char>, m: Seq<char>, pos: int, p: int)
    requires
        0 <= pos <= p,
        p <= src.len(),
        p <= m.len(),
        forall|i: int| 0 <= i < p ==> m[i] == src[i],
        skip_ws_end(src, pos) < p,
    ensures
        skip_ws_end(m, pos) == skip_ws_end(src, pos),
    decreases p - pos,
{
    if pos < src.len() && is_space_char(src[pos]) {
        lemma_skip_ws_end_bounds(src, pos + 1);
        lemma_skip_ws_end_agree(src, m, pos + 1, p);
    }
}

/// Two inputs that agree below `p` end a word run identically, as long
/// as the run ends by `p` and, should it end exactly there, the second
/// input cannot continue it either.
proof fn lemma_word_end_agree(src: Seq<char>, m: Seq<char>, pos: int, p: int)
    requires
        0 <= pos <= p,
        p <= src.len(),
        p <= m.len(),
        forall|i: int| 0 <= i < p ==> m[i] == src[i],
        word_end(src, pos) <= p,
        word_end(src, pos) == p && p < m.len() ==> !is_word_char(m[p]),
    ensures
        word_end(m, pos) == word_end(src, pos),
    decreases p - pos,
{
    if pos < src.len() && is_word_char(src[pos]) {
        lemma_word_end_bounds(src, pos + 1);
        lemma_word_end_agree(src, m, pos + 1, p);
    }
}

/// Two inputs that agree below `p` end a number run identically, as for
/// [`lemma_word_end_agree`].
proof fn lemma_number_end_agree(src: Seq<char>, m: Seq<char>, pos: int, p: int)
    requires
        0 <= pos <= p,
        p <= src.len(),
        p <= m.len(),
        forall|i: int| 0 <= i < p ==> m[i] == src[i],
        number_end(src, pos) <= p,
        number_end(src, pos) == p && p < m.len() ==> !is_number_char(m[p]),
    ensures
        number_end(m, pos) == number_end(src, pos),
    decreases p - pos,
{
    if pos < src.len() && is_number_char(src[pos]) {
        lemma_number_end_bounds(src, pos + 1);
        lemma_number_end_agree(src, m, pos + 1, p);
    }
}

/// A token scanned wholly below `p` is unchanged by inserting whitespace
/// at `p`: the step of the widened input at the same cursor produces the
/// same token and stops at the same place.
proof fn lemma_step_insert(src: Seq<char>, ws: Seq<char>, p: int, pos: int)
    requires
        0 <= pos <= src.len(),
        0 <= p <= src.len(),
        forall|i: int| 0 <= i < ws.len() ==> is_space_char(ws[i]),
        !(spec_step(src, pos).0 is Eof),
        spec_step(src, pos).2 <= p,
    ensures
        spec_step(src.subrange(0, p) + ws + src.subrange(p, src.len() as int), pos) == spec_step(
            src,
            pos,
        ),
{
    let m = src.subrange(0, p) + ws + src.subrange(p, src.len() as int);
    if ws.len() == 0 {
        assert(m =~= src);
        return ;
    }
    assert(m.len() == src.len() + ws.len());
    assert(forall|i: int| 0 <= i < p ==> m[i] == src[i]);
    assert(m[p] == ws[0]);
    lemma_skip_ws_end_bounds(src, pos);
    let q = skip_ws_end(src, pos);
    let e = spec_step(src, pos).2;
    lemma_step_progress(src, pos);
    assert(q < src.len());
    lemma_word_end_bounds(src, q + 1);
    lemma_number_end_bounds(src, q + 1);
    assert(q < e <= p);
    lemma_skip_ws_end_agree(src, m, pos, p);
    let c = src[q];
    if c == '=' || c == '!' {
        if q + 1 < src.len() && src[q + 1] == '=' {
            assert(q + 1 < p);
        } else {
            if q + 1 == p {
                assert(m[q + 1] == ws[0]);
                assert(!(m[q + 1] == '='));
            }
        }
    } else if c == '+' || c == '-' || c == '*' || c == '/' || c == '<' || c == '>' || c == ';' || c
        == ',' || c == '(' || c == ')' || c == '{' || c == '}' {
    } else if is_word_start_char(c) {
        lemma_word_end_agree(src, m, q, p);
        assert(m.subrange(q, e) =~= src.subrange(q, e));
    } else if is_digit_char(c) {
        lemma_number_end_agree(src, m, q, p);
        assert(m.subrange(q, e) =~= src.subrange(q, e));
    }
}

/// The token stream from a position the scan passes through is unchanged
/// by inserting whitespace at `p`, token by token up to `p` and then by
/// whitespace-prefix insensitivity beyond it.
proof fn lemma_tokens_insert_from(src: Seq<char>, ws: Seq<char>, p: int, pos: int)
    requires
        0 <= pos <= src.len(),
        forall|i: int| 0 <= i < ws.len() ==> is_space_char(ws[i]),
        scan_reaches(src, pos, p),
    ensures
        spec_tokens(src.subrange(0, p) + ws + src.subrange(p, src.len() as int), pos)
            == spec_tokens(src, pos),
    decreases src.len() - pos,
{
    lemma_reaches_bounds(src, pos, p);
    let head = src.subrange(0, p);
    let tail = src.subrange(p, src.len() as int);
    let m = head + ws + tail;
    if pos == p {
        assert(m =~= head + (ws + tail));
        lemma_tokens_shift(head, ws + tail, 0);
        lemma_whitespace_prefix(ws, tail);
        lemma_tokens_shift(head, tail, 0);
        assert(head + tail =~= src);
        assert(spec_tokens(m, pos) == spec_tokens(ws + tail, 0));
        assert(spec_tokens(src, pos) == spec_tokens(tail, 0));
    } else {
        lemma_step_progress(src, pos);
        let e = spec_step(src, pos).2;
        lemma_reaches_bounds(src, e, p);
        lemma_step_insert(src, ws, p, pos);
        lemma_tokens_insert_from(src, ws, p, e);
    }
}

/// Whitespace of any kind inserted at any position the scan passes
/// through -- in particular, between two tokens -- never produces a
/// token of its own and never changes the sequence of tokens scanned.
pub proof fn lemma_whitespace_between_tokens(src: Seq<char>, ws: Seq<char>, p: int)
    requires
        forall|i: int| 0 <= i < ws.len() ==> is_space_char(ws[i]),
        scan_reaches(src, 0, p),
    ensures
        spec_tokens(src.subrange(0, p) + ws + src.subrange(p, src.len() as int), 0) == spec_tokens(
            src,
            0,
        ),
{
    lemma_tokens_insert_from(src, ws, p, 0);
}

/// A half-open range of positions into a piece of text.
pub struct TextSpan {
    start: usize,
    end: usize,
}

impl TextSpan {
    /// The start position of the span.
    pub closed spec fn spec_start(&self) -> int {
        self.start as int
    }

    /// The end position of the span.
    pub closed spec fn spec_end(&self) -> int {
        self.end as int
    }

    /// Builds a span from its start and end positions.
    pub fn new(start: usize, end: usize) -> (s: TextSpan)
        ensures
            s.spec_start() == start,
            s.spec_end() == end,
    {
        TextSpan { start, end }
    }

    /// The number of characters the span covers.
    pub fn length(&self) -> (n: usize)
        requires
            self.spec_start() <= self.spec_end(),
        ensures
            n == self.spec_end() - self.spec_start(),
    {
        self.end - self.start
    }

    /// The substring of `input` the span covers, by character positions.
    pub fn to_string<'a>(&self, input: &'a str) -> (r: &'a str)
        requires
            self.spec_start() <= self.spec_end(),
            self.spec_end() <= input@.len(),
        ensures
            r@ == input@.subrange(self.spec_start(), self.spec_end()),
    {
        input.substring_char(self.start, self.end)
    }
}

/// The scanner: the full input as a fixed sequence of characters, and a
/// cursor that only moves forward and never exceeds the input's length.
pub struct Lexer {
    source: Vec<char>,
    position: usize,
}

impl Lexer {
    /// The input, as the sequence of its characters.
    pub closed spec fn src(&self) -> Seq<char> {
        self.source@
    }

    /// The cursor: the position of the next character to inspect.
    pub closed spec fn pos(&self) -> int {
        self.position as int
    }

    /// The scanner's invariant: the cursor never exceeds the input's
    /// length.
    pub open spec fn wf(&self) -> bool {
        self.pos() <= self.src().len()
    }

    /// Builds a scanner over the given input, with the cursor at the
    /// first character.
    pub fn new(input: &str) -> (lx: Lexer)
        ensures
            lx.wf(),
            lx.src() == input@,
            lx.pos() == 0,
    {
        let n: usize = input.unicode_len();
        let mut source: Vec<char> = Vec::new();
        let mut i: usize = 0;
        while i < n
            invariant
                i <= n,
                n == input@.len(),
                source@ == input@.subrange(0, i as int),
            decreases n - i,
        {
            let c = input.get_char(i);
            source.push(c);
            proof {
                assert(input@.subrange(0, i + 1 as int) =~= input@.subrange(0, i as int).push(
                    input@[i as int],
                ));
            }
            i = i + 1;
        }
        proof {
            assert(input@.subrange(0, n as int) =~= input@);
        }
        Lexer { source, position: 0 }
    }

    /// The character under the cursor, if one remains.
    pub fn current_char(&self) -> (c: Option<char>)
        ensures
            c == if self.pos() < self.src().len() {
                Some(self.src()[self.pos()])
            } else {
                None::<char>
            },
    {
        if self.position < self.source.len() {
            Some(self.source[self.position])
        } else {
            None
        }
    }

    /// The character one past the cursor, if one remains there.
    pub fn peek_char(&self) -> (c: Option<char>)
        ensures
            c == if self.pos() + 1 < self.src().len() {
                Some(self.src()[self.pos() + 1])
            } else {
                None::<char>
            },
    {
        if self.position < self.source.len() && self.position + 1 < self.source.len() {
            Some(self.source[self.position + 1])
        } else {
            None
        }
    }

    /// Moves the cursor one character forward, unless it already stands
    /// at the end of the input.
    pub fn advance(&mut self)
        ensures
            final(self).src() == old(self).src(),
            final(self).pos() == if old(self).pos() < old(self).src().len() {
                old(self).pos() + 1
            } else {
                old(self).pos()
            },
    {
        if self.position < self.source.len() {
            self.position = self.position + 1;
        }
    }

    /// Moves the cursor past every consecutive whitespace character.
    pub fn skip_whitespace(&mut self)
        requires
            old(self).wf(),
        ensures
            final(self).wf(),
            final(self).src() == old(self).src(),
            final(self).pos() == skip_ws_end(old(self).src(), old(self).pos()),
    {
        loop
            invariant
                self.wf(),
                self.src() == old(self).src(),
                skip_ws_end(self.src(), self.pos()) == skip_ws_end(old(self).src(), old(self).pos()),
            ensures
                self.wf(),
                self.src() == old(self).src(),
                skip_ws_end(self.src(), self.pos()) == skip_ws_end(old(self).src(), old(self).pos()),
                self.pos() == self.src().len() || !is_space_char(self.src()[self.pos()]),
            decreases self.src().len() - self.pos(),
        {
            if self.position < self.source.len() {
                let ch = self.source[self.position];
                if is_space(ch) {
                    self.advance();
                } else {
                    break;
                }
            } else {
                break;
            }
        }
        proof {
            assert(skip_ws_end(self.src(), self.pos()) == self.pos());
        }
    }

    /// Consumes the maximal run of word characters (alphanumeric or `_`)
    /// starting at the cursor, and returns it as the scanned word.
    pub fn read_identifier(&mut self) -> (w: String)
        requires
            old(self).wf(),
        ensures
            final(self).wf(),
            final(self).src() == old(self).src(),
            final(self).pos() == word_end(old(self).src(), old(self).pos()),
            w@ == old(self).src().subrange(old(self).pos(), final(self).pos()),
    {
        let mut w = String::new();
        loop
            invariant
                self.wf(),
                self.src() == old(self).src(),
                old(self).pos() <= self.pos(),
                word_end(self.src(), self.pos()) == word_end(old(self).src(), old(self).pos()),
                w@ == self.src().subrange(old(self).pos(), self.pos()),
            ensures
                self.wf(),
                self.src() == old(self).src(),
                old(self).pos() <= self.pos(),
                word_end(self.src(), self.pos()) == word_end(old(self).src(), old(self).pos()),
                w@ == self.src().subrange(old(self).pos(), self.pos()),
                self.pos() == self.src().len() || !is_word_char(self.src()[self.pos()]),
            decreases self.src().len() - self.pos(),
        {
            if self.position < self.source.len() {
                let ch = self.source[self.position];
                if ch.is_alphanumeric() || ch == '_' {
                    w.push(ch);
                    self.advance();
                    proof {
                        assert(self.src().subrange(old(self).pos(), self.pos()) =~= self.src()
                            .subrange(old(self).pos(), self.pos() - 1).push(
                            self.src()[self.pos() - 1],
                        ));
                    }
                } else {
                    break;
                }
            } else {
                break;
            }
        }
        proof {
            assert(word_end(self.src(), self.pos()) == self.pos());
        }
        w
    }

    /// Consumes the maximal run of number characters (decimal digits or
    /// `.`) starting at the cursor, and returns it as the number lexeme.
    pub fn read_number(&mut self) -> (x: String)
        requires
            old(self).wf(),
        ensures
            final(self).wf(),
            final(self).src() == old(self).src(),
            final(self).pos() == number_end(old(self).src(), old(self).pos()),
            x@ == old(self).src().subrange(old(self).pos(), final(self).pos()),
    {
        let mut x = String::new();
        loop
            invariant
                self.wf(),
                self.src() == old(self).src(),
                old(self).pos() <= self.pos(),
                number_end(self.src(), self.pos()) == number_end(old(self).src(), old(self).pos()),
                x@ == self.src().subrange(old(self).pos(), self.pos()),
            ensures
                self.wf(),
                self.src() == old(self).src(),
                old(self).pos() <= self.pos(),
                number_end(self.src(), self.pos()) == number_end(old(self).src(), old(self).pos()),
                x@ == self.src().subrange(old(self).pos(), self.pos()),
                self.pos() == self.src().len() || !is_number_char(self.src()[self.pos()]),
            decreases self.src().len() - self.pos(),
        {
            if self.position < self.source.len() {
                let ch = self.source[self.position];
                if is_digit(ch) || ch == '.' {
                    x.push(ch);
                    self.advance();
                    proof {
                        assert(self.src().subrange(old(self).pos(), self.pos()) =~= self.src()
                            .subrange(old(self).pos(), self.pos() - 1).push(
                            self.src()[self.pos() - 1],
                        ));
                    }
                } else {
                    break;
                }
            } else {
                break;
            }
        }
        proof {
            assert(number_end(self.src(), self.pos()) == self.pos());
        }
        x
    }

    /// Produces the next token and advances the cursor past it, exactly
    /// as [`spec_step`] describes.
    pub fn next_token(&mut self) -> (t: Token)
        requires
            old(self).wf(),
        ensures
            final(self).wf(),
            final(self).src() == old(self).src(),
            old(self).pos() <= final(self).pos(),
            final(self).pos() == spec_step(old(self).src(), old(self).pos()).2,
            crate::lexer::token::kind_fits(
                t.spec_kind(),
                spec_step(old(self).src(), old(self).pos()).0,
                spec_step(old(self).src(), old(self).pos()).1,
            ),
            t.spec_literal() == spec_step(old(self).src(), old(self).pos()).1,
    {
        proof {
            lemma_step_progress(old(self).src(), old(self).pos());
        }
        self.skip_whitespace();
        let c = match self.current_char() {
            Some(c) => c,
            None => {
                return Token::new(TokenKind::Eof);
            },
        };
        if c == '=' {
            let two = match self.peek_char() {
                Some(p) => p == '=',
                None => false,
            };
            if two {
                self.advance();
                self.advance();
                Token::new(TokenKind::Equal)
            } else {
                self.advance();
                Token::new(TokenKind::Assign)
            }
        } else if c == '!' {
            let two = match self.peek_char() {
                Some(p) => p == '=',
                None => false,
            };
            if two {
                self.advance();
                self.advance();
                Token::new(TokenKind::NotEqual)
            } else {
                self.advance();
                Token::new(TokenKind::Bang)
            }
        } else if c == '+' {
            self.advance();
            Token::new(TokenKind::Plus)
        } else if c == '-' {
            self.advance();
            Token::new(TokenKind::Minus)
        } else if c == '*' {
            self.advance();
            Token::new(TokenKind::Asterisk)
        } else if c == '/' {
            self.advance();
            Token::new(TokenKind::Slash)
        } else if c == '<' {
            self.advance();
            Token::new(TokenKind::LessThan)
        } else if c == '>' {
            self.advance();
            Token::new(TokenKind::GreaterThan)
        } else if c == ';' {
            self.advance();
            Token::new(TokenKind::Semicolon)
        } else if c == ',' {
            self.advance();
            Token::new(TokenKind::Comma)
        } else if c == '(' {
            self.advance();
            Token::new(TokenKind::LParen)
        } else if c == ')' {
            self.advance();
            Token::new(TokenKind::RParen)
        } else if c == '{' {
            self.advance();
            Token::new(TokenKind::LBrace)
        } else if c == '}' {
            self.advance();
            Token::new(TokenKind::RBrace)
        } else if c.is_alphabetic() || c == '_' {
            let word = self.read_identifier();
            let k = lookup_identifier(word.as_str());
            proof {
                crate::lexer::token::lemma_lookup_fits(word@, k);
            }
            Token::new(k)
        } else if is_digit(c) {
            let lexeme = self.read_number();
            Token::new(TokenKind::Number(lexeme))
        } else {
            self.advance();
            Token::new(TokenKind::Illegal)
        }
    }
}

} // verus!


//! The lexer: source text to tokens.
use vstd::prelude::*;
use crate::error::{line_col_after, mk_span, spec_diag, spec_line_col, Diagnostic, Span, SpecDiag};
use crate::text::{
    chars_of, is_ascii_digit, is_ascii_graphic, is_whitespace, push_char, push_str, spec_is_digit,
    spec_is_graphic, spec_is_whitespace, spec_utf8_len, string_of, utf8_len,
};

verus! {

/// A token, with the span of source text it was read from.
#[derive(Debug, Clone, PartialEq)]
pub enum Token {
    LParen(Span),
    RParen(Span),
    Ident(String, Span),
    Number(String, Span),
    String(String, Span),
    Eof(Span),
}

/// The mathematical value of a `Token`.
pub enum SpecToken {
    LParen(Span),
    RParen(Span),
    Ident(Seq<char>, Span),
    Number(Seq<char>, Span),
    Str(Seq<char>, Span),
    Eof(Span),
}

impl View for Token {
    type V = SpecToken;

    open spec fn view(&self) -> SpecToken {
        match self {
            Token::LParen(s) => SpecToken::LParen(*s),
            Token::RParen(s) => SpecToken::RParen(*s),
            Token::Ident(t, s) => SpecToken::Ident(t@, *s),
            Token::Number(t, s) => SpecToken::Number(t@, *s),
            Token::String(t, s) => SpecToken::Str(t@, *s),
            Token::Eof(s) => SpecToken::Eof(*s),
        }
    }
}

/// The values of a sequence of tokens.
pub open spec fn tokens_view(t: Seq<Token>) -> Seq<SpecToken> {
    t.map_values(|x: Token| x@)
}

/// The value of the lexer's result.
pub open spec fn lex_result_view(r: Result<Vec<Token>, Diagnostic>) -> Result<
    Seq<SpecToken>,
    SpecDiag,
> {
    match r {
        Ok(v) => Ok(tokens_view(v@)),
        Err(d) => Err(d@),
    }
}

/// Where the lexer stands: character index, byte offset, line and column.
pub struct Cursor {
    pub index: int,
    pub pos: int,
    pub line: int,
    pub column: int,
}

/// The cursor at the start of a text.
pub open spec fn start_cursor() -> Cursor {
    Cursor { index: 0, pos: 0, line: 1, column: 1 }
}

/// The span from cursor `a` (its line and column) to cursor `b`.
pub open spec fn cursor_span(a: Cursor, b: Cursor) -> Span {
    mk_span(a.pos, b.pos, a.line, a.column)
}

/// The cursor after the character under `c`: a newline moves to column 1 of
/// the next line, any other character one column to the right.
pub open spec fn step(chars: Seq<char>, c: Cursor) -> Cursor {
    let ch = chars[c.index];
    Cursor {
        index: c.index + 1,
        pos: c.pos + spec_utf8_len(ch),
        line: if ch == '\n' {
            c.line + 1
        } else {
            c.line
        },
        column: if ch == '\n' {
            1
        } else {
            c.column + 1
        },
    }
}

/// `c` stands on a character of `chars`.
pub open spec fn in_text(chars: Seq<char>, c: Cursor) -> bool {
    0 <= c.index < chars.len()
}

/// The cursor after whitespace and `;` comments (which run to the end of
/// their line) from `c`; `in_comment` says whether `c` is inside a comment.
pub open spec fn skip_blank(chars: Seq<char>, c: Cursor, in_comment: bool) -> Cursor
    decreases chars.len() - c.index,
{
    if !in_text(chars, c) {
        c
    } else {
        let ch = chars[c.index];
        if in_comment {
            skip_blank(chars, step(chars, c), ch != '\n')
        } else if spec_is_whitespace(ch) {
            skip_blank(chars, step(chars, c), false)
        } else if ch == ';' {
            skip_blank(chars, step(chars, c), true)
        } else {
            c
        }
    }
}

/// Scanning the body of a string literal from `c`: whether a closing `"`
/// was found, and the cursor after it (or at the end of the text).
pub open spec fn string_end(chars: Seq<char>, c: Cursor) -> (bool, Cursor)
    decreases chars.len() - c.index,
{
    if !in_text(chars, c) {
        (false, c)
    } else if chars[c.index] == '"' {
        (true, step(chars, c))
    } else {
        string_end(chars, step(chars, c))
    }
}

/// A character that ends an identifier or a number.
pub open spec fn is_delimiter(ch: char) -> bool {
    spec_is_whitespace(ch) || ch == '(' || ch == ')' || ch == ';'
}

/// The cursor at the end of the identifier or number that starts at `c`.
pub open spec fn word_end(chars: Seq<char>, c: Cursor) -> Cursor
    decreases chars.len() - c.index,
{
    if !in_text(chars, c) || is_delimiter(chars[c.index]) {
        c
    } else {
        word_end(chars, step(chars, c))
    }
}

/// The token for the identifier or number `text`: a number when it starts
/// with a digit.
pub open spec fn word_token(text: Seq<char>, span: Span) -> SpecToken {
    if text.len() > 0 && spec_is_digit(text[0]) {
        SpecToken::Number(text, span)
    } else {
        SpecToken::Ident(text, span)
    }
}

pub open spec fn unclosed_message(content: Seq<char>) -> Seq<char> {
    "unclosed string literal: `"@ + content + "...`"@
}

pub open spec fn unexpected_message(ch: char) -> Seq<char> {
    "unexpected character `"@ + seq![ch] + "`"@
}

pub proof fn lemma_skip_blank(chars: Seq<char>, c: Cursor, in_comment: bool)
    requires
        0 <= c.index <= chars.len(),
    ensures
        c.index <= skip_blank(chars, c, in_comment).index <= chars.len(),
        in_text(chars, skip_blank(chars, c, in_comment)) ==> !spec_is_whitespace(
            chars[skip_blank(chars, c, in_comment).index],
        ) && chars[skip_blank(chars, c, in_comment).index] != ';',
    decreases chars.len() - c.index,
{
    if in_text(chars, c) {
        let ch = chars[c.index];
        if in_comment || spec_is_whitespace(ch) || ch == ';' {
            lemma_skip_blank(chars, step(chars, c), if in_comment {
                ch != '\n'
            } else {
                ch == ';'
            });
        }
    }
}

pub proof fn lemma_string_end(chars: Seq<char>, c: Cursor)
    requires
        0 <= c.index <= chars.len(),
    ensures
        c.index <= string_end(chars, c).1.index <= chars.len(),
        string_end(chars, c).0 ==> string_end(chars, c).1.index >= c.index + 1 && chars[string_end(
            chars,
            c,
        ).1.index - 1] == '"',
        !string_end(chars, c).0 ==> string_end(chars, c).1.index == chars.len(),
    decreases chars.len() - c.index,
{
    if in_text(chars, c) && chars[c.index] != '"' {
        lemma_string_end(chars, step(chars, c));
    }
}

pub proof fn lemma_word_end(chars: Seq<char>, c: Cursor)
    requires
        0 <= c.index <= chars.len(),
    ensures
        c.index <= word_end(chars, c).index <= chars.len(),
        in_text(chars, c) && !is_delimiter(chars[c.index]) ==> word_end(chars, c).index > c.index,
    decreases chars.len() - c.index,
{
    if in_text(chars, c) && !is_delimiter(chars[c.index]) {
        lemma_word_end(chars, step(chars, c));
    }
}

/// The tokens of `chars` from cursor `c` on, after the tokens `acc` already
/// read; or the diagnostic for the first lexical error.
pub open spec fn spec_lex(chars: Seq<char>, file: Seq<char>, c: Cursor, acc: Seq<SpecToken>) -> Result<
    Seq<SpecToken>,
    SpecDiag,
>
    decreases chars.len() - c.index,
{
    if c.index < 0 || c.index > chars.len() {
        Ok(acc.push(SpecToken::Eof(mk_span(c.pos, c.pos, c.line, c.column))))
    } else {
        let c1 = skip_blank(chars, c, false);
        proof {
            lemma_skip_blank(chars, c, false);
        }
        if !in_text(chars, c1) {
            Ok(acc.push(SpecToken::Eof(mk_span(c1.pos, c1.pos, c1.line, c1.column))))
        } else {
            let ch = chars[c1.index];
            if ch == '(' {
                let c2 = step(chars, c1);
                spec_lex(chars, file, c2, acc.push(SpecToken::LParen(cursor_span(c1, c2))))
            } else if ch == ')' {
                let c2 = step(chars, c1);
                spec_lex(chars, file, c2, acc.push(SpecToken::RParen(cursor_span(c1, c2))))
            } else if ch == '"' {
                let (closed, c2) = string_end(chars, step(chars, c1));
                proof {
                    lemma_string_end(chars, step(chars, c1));
                }
                if closed {
                    let content = chars.subrange(c1.index + 1, c2.index - 1);
                    spec_lex(
                        chars,
                        file,
                        c2,
                        acc.push(SpecToken::Str(content, cursor_span(c1, c2))),
                    )
                } else {
                    let content = chars.subrange(c1.index + 1, c2.index);
                    Err(spec_diag(unclosed_message(content), file, cursor_span(c1, c2)))
                }
            } else if !spec_is_graphic(ch) && !spec_is_whitespace(ch) {
                Err(
                    spec_diag(
                        unexpected_message(ch),
                        file,
                        mk_span(c1.pos, c1.pos + spec_utf8_len(ch), c1.line, c1.column),
                    ),
                )
            } else {
                let c2 = word_end(chars, c1);
                proof {
                    lemma_word_end(chars, c1);
                }
                let text = chars.subrange(c1.index, c2.index);
                spec_lex(chars, file, c2, acc.push(word_token(text, cursor_span(c1, c2))))
            }
        }
    }
}

/// The tokens of the text `chars` of the file `file`, ended by `Eof`; or the
/// diagnostic for its first lexical error.
pub open spec fn spec_tokenize(chars: Seq<char>, file: Seq<char>) -> Result<
    Seq<SpecToken>,
    SpecDiag,
> {
    spec_lex(chars, file, start_cursor(), Seq::empty())
}

/// No token of `ts` is an `Eof`.
pub open spec fn no_eof(ts: Seq<SpecToken>) -> bool {
    forall|i: int| 0 <= i < ts.len() ==> !(#[trigger] ts[i] is Eof)
}

proof fn lemma_lex_eof(chars: Seq<char>, file: Seq<char>, c: Cursor, acc: Seq<SpecToken>)
    requires
        no_eof(acc),
    ensures
        spec_lex(chars, file, c, acc) matches Ok(ts) ==> ts.len() > 0 && ts.last() is Eof
            && no_eof(ts.drop_last()),
    decreases chars.len() - c.index,
{
    if c.index < 0 || c.index > chars.len() {
        assert(acc.push(SpecToken::Eof(mk_span(c.pos, c.pos, c.line, c.column))).drop_last()
            =~= acc);
    } else {
        let c1 = skip_blank(chars, c, false);
        lemma_skip_blank(chars, c, false);
        if !in_text(chars, c1) {
            assert(acc.push(SpecToken::Eof(mk_span(c1.pos, c1.pos, c1.line, c1.column))).drop_last()
                =~= acc);
        } else {
            let ch = chars[c1.index];
            if ch == '(' {
                let c2 = step(chars, c1);
                lemma_lex_eof(chars, file, c2, acc.push(SpecToken::LParen(cursor_span(c1, c2))));
            } else if ch == ')' {
                let c2 = step(chars, c1);
                lemma_lex_eof(chars, file, c2, acc.push(SpecToken::RParen(cursor_span(c1, c2))));
            } else if ch == '"' {
                let (closed, c2) = string_end(chars, step(chars, c1));
                lemma_string_end(chars, step(chars, c1));
                if closed {
                    let content = chars.subrange(c1.index + 1, c2.index - 1);
                    lemma_lex_eof(
                        chars,
                        file,
                        c2,
                        acc.push(SpecToken::Str(content, cursor_span(c1, c2))),
                    );
                }
            } else if !spec_is_graphic(ch) && !spec_is_whitespace(ch) {
            } else {
                let c2 = word_end(chars, c1);
                lemma_word_end(chars, c1);
                let text = chars.subrange(c1.index, c2.index);
                lemma_lex_eof(chars, file, c2, acc.push(word_token(text, cursor_span(c1, c2))));
            }
        }
    }
}

/// A successful tokenization ends with an `Eof` token, and holds no other.
pub proof fn lemma_tokenize_ends_with_eof(chars: Seq<char>, file: Seq<char>)
    ensures
        spec_tokenize(chars, file) matches Ok(ts) ==> ts.len() > 0 && ts.last() is Eof
            && no_eof(ts.drop_last()),
{
    lemma_lex_eof(chars, file, start_cursor(), Seq::empty());
}

/// The characters of `chars` before index `n` are ASCII.
pub open spec fn ascii_before(chars: Seq<char>, n: int) -> bool {
    forall|i: int| 0 <= i < n && i < chars.len() ==> '\u{80}' > #[trigger] chars[i]
}

/// The number of bytes of the first `n` characters of `chars`.
pub open spec fn byte_len(chars: Seq<char>, n: int) -> int
    decreases n,
{
    if n <= 0 {
        0
    } else {
        byte_len(chars, n - 1) + spec_utf8_len(chars[n - 1])
    }
}

/// The span of a token.
pub open spec fn token_span(t: SpecToken) -> Span {
    match t {
        SpecToken::LParen(sp) => sp,
        SpecToken::RParen(sp) => sp,
        SpecToken::Ident(_, sp) => sp,
        SpecToken::Number(_, sp) => sp,
        SpecToken::Str(_, sp) => sp,
        SpecToken::Eof(sp) => sp,
    }
}

/// The line and column of `sp` are those of its start in `chars`, as
/// `Span::from_char_range` computes them.
pub open spec fn span_at(chars: Seq<char>, sp: Span) -> bool {
    sp.line as int == spec_line_col(chars, sp.start as int).0 && sp.column as int == spec_line_col(
        chars,
        sp.start as int,
    ).1
}

/// A span that starts after ASCII characters only agrees with
/// `Span::from_char_range`.
pub open spec fn span_at_if_ascii(chars: Seq<char>, sp: Span) -> bool {
    ascii_before(chars, sp.start as int) ==> span_at(chars, sp)
}

/// `c` stands after `c.index` characters, at the byte offset and with the
/// line and column they lead to.
pub open spec fn on_track(chars: Seq<char>, c: Cursor) -> bool {
    &&& 0 <= c.index <= chars.len()
    &&& c.pos == byte_len(chars, c.index)
    &&& (c.line, c.column) == line_col_after(chars, c.index)
}

proof fn lemma_line_col_bounds(chars: Seq<char>, n: int)
    requires
        n >= 0,
    ensures
        1 <= line_col_after(chars, n).0 <= n + 1,
        1 <= line_col_after(chars, n).1 <= n + 1,
    decreases n,
{
    if n > 0 {
        lemma_line_col_bounds(chars, n - 1);
    }
}

proof fn lemma_byte_len_bounds(chars: Seq<char>, n: int)
    requires
        0 <= n <= chars.len(),
    ensures
        n <= byte_len(chars, n) <= 4 * n,
        ascii_before(chars, n) ==> byte_len(chars, n) == n,
    decreases n,
{
    if n > 0 {
        lemma_byte_len_bounds(chars, n - 1);
        if ascii_before(chars, n) {
            assert('\u{80}' > chars[n - 1]);
            assert(ascii_before(chars, n - 1));
        }
    }
}

proof fn lemma_step_on_track(chars: Seq<char>, c: Cursor)
    requires
        on_track(chars, c),
        in_text(chars, c),
    ensures
        on_track(chars, step(chars, c)),
{
}

proof fn lemma_skip_blank_on_track(chars: Seq<char>, c: Cursor, in_comment: bool)
    requires
        on_track(chars, c),
    ensures
        on_track(chars, skip_blank(chars, c, in_comment)),
    decreases chars.len() - c.index,
{
    if in_text(chars, c) {
        let ch = chars[c.index];
        if in_comment || spec_is_whitespace(ch) || ch == ';' {
            lemma_step_on_track(chars, c);
            lemma_skip_blank_on_track(chars, step(chars, c), if in_comment {
                ch != '\n'
            } else {
                ch == ';'
            });
        }
    }
}

proof fn lemma_string_end_on_track(chars: Seq<char>, c: Cursor)
    requires
        on_track(chars, c),
    ensures
        on_track(chars, string_end(chars, c).1),
    decreases chars.len() - c.index,
{
    if in_text(chars, c) {
        lemma_step_on_track(chars, c);
        if chars[c.index] != '"' {
            lemma_string_end_on_track(chars, step(chars, c));
        }
    }
}

proof fn lemma_word_end_on_track(chars: Seq<char>, c: Cursor)
    requires
        on_track(chars, c),
    ensures
        on_track(chars, word_end(chars, c)),
    decreases chars.len() - c.index,
{
    if in_text(chars, c) && !is_delimiter(chars[c.index]) {
        lemma_step_on_track(chars, c);
        lemma_word_end_on_track(chars, step(chars, c));
    }
}

/// A span that starts at the cursor on track `c` agrees with
/// `from_char_range` when the characters before it are ASCII.
proof fn lemma_span_at_cursor(chars: Seq<char>, c: Cursor, end: int)
    requires
        on_track(chars, c),
        4 * chars.len() <= usize::MAX,
        0 <= end <= usize::MAX,
    ensures
        span_at_if_ascii(chars, mk_span(c.pos, end, c.line, c.column)),
{
    lemma_line_col_bounds(chars, c.index);
    lemma_byte_len_bounds(chars, c.index);
    if ascii_before(chars, c.pos) {
        assert(ascii_before(chars, c.index));
    }
}

proof fn lemma_lex_spans(chars: Seq<char>, file: Seq<char>, c: Cursor, acc: Seq<SpecToken>)
    requires
        4 * chars.len() <= usize::MAX,
        on_track(chars, c),
        forall|i: int| 0 <= i < acc.len() ==> span_at_if_ascii(chars, token_span(#[trigger] acc[i])),
    ensures
        spec_lex(chars, file, c, acc) matches Ok(ts) ==> forall|i: int|
            0 <= i < ts.len() ==> span_at_if_ascii(chars, token_span(#[trigger] ts[i])),
        spec_lex(chars, file, c, acc) matches Err(d) ==> span_at_if_ascii(chars, d.span),
    decreases chars.len() - c.index,
{
    let c1 = skip_blank(chars, c, false);
    lemma_skip_blank(chars, c, false);
    lemma_skip_blank_on_track(chars, c, false);
    lemma_byte_len_bounds(chars, c1.index);
    if !in_text(chars, c1) {
        let t = SpecToken::Eof(mk_span(c1.pos, c1.pos, c1.line, c1.column));
        lemma_span_at_cursor(chars, c1, c1.pos);
        assert forall|i: int| 0 <= i < acc.push(t).len() implies span_at_if_ascii(
            chars,
            token_span(#[trigger] acc.push(t)[i]),
        ) by {
            if i < acc.len() {
                assert(acc.push(t)[i] == acc[i]);
            }
        }
    } else {
        let ch = chars[c1.index];
        if ch == '(' || ch == ')' {
            let c2 = step(chars, c1);
            lemma_step_on_track(chars, c1);
            lemma_byte_len_bounds(chars, c2.index);
            lemma_span_at_cursor(chars, c1, c2.pos);
            let t = if ch == '(' {
                SpecToken::LParen(cursor_span(c1, c2))
            } else {
                SpecToken::RParen(cursor_span(c1, c2))
            };
            assert forall|i: int| 0 <= i < acc.push(t).len() implies span_at_if_ascii(
                chars,
                token_span(#[trigger] acc.push(t)[i]),
            ) by {
                if i < acc.len() {
                    assert(acc.push(t)[i] == acc[i]);
                }
            }
            lemma_lex_spans(chars, file, c2, acc.push(t));
        } else if ch == '"' {
            let c0 = step(chars, c1);
            lemma_step_on_track(chars, c1);
            let (closed, c2) = string_end(chars, c0);
            lemma_string_end(chars, c0);
            lemma_string_end_on_track(chars, c0);
            lemma_byte_len_bounds(chars, c2.index);
            lemma_span_at_cursor(chars, c1, c2.pos);
            if closed {
                let content = chars.subrange(c1.index + 1, c2.index - 1);
                let t = SpecToken::Str(content, cursor_span(c1, c2));
                assert forall|i: int| 0 <= i < acc.push(t).len() implies span_at_if_ascii(
                    chars,
                    token_span(#[trigger] acc.push(t)[i]),
                ) by {
                    if i < acc.len() {
                        assert(acc.push(t)[i] == acc[i]);
                    }
                }
                lemma_lex_spans(chars, file, c2, acc.push(t));
            }
        } else if !spec_is_graphic(ch) && !spec_is_whitespace(ch) {
            lemma_span_at_cursor(chars, c1, c1.pos + spec_utf8_len(ch));
        } else {
            let c2 = word_end(chars, c1);
            lemma_word_end(chars, c1);
            lemma_word_end_on_track(chars, c1);
            lemma_byte_len_bounds(chars, c2.index);
            lemma_span_at_cursor(chars, c1, c2.pos);
            let text = chars.subrange(c1.index, c2.index);
            let t = word_token(text, cursor_span(c1, c2));
            assert forall|i: int| 0 <= i < acc.push(t).len() implies span_at_if_ascii(
                chars,
                token_span(#[trigger] acc.push(t)[i]),
            ) by {
                if i < acc.len() {
                    assert(acc.push(t)[i] == acc[i]);
                }
            }
            lemma_lex_spans(chars, file, c2, acc.push(t));
        }
    }
}

/// The line and column of every token's span, and of the span of a lexical
/// error, are those that `Span::from_char_range` gives for the span's start,
/// whenever the characters before that start are ASCII (so that its byte
/// offset is also its character index).
pub proof fn lemma_token_spans_from_char_range(chars: Seq<char>, file: Seq<char>)
    requires
        4 * chars.len() <= usize::MAX,
    ensures
        spec_tokenize(chars, file) matches Ok(ts) ==> forall|i: int|
            0 <= i < ts.len() ==> span_at_if_ascii(chars, token_span(#[trigger] ts[i])),
        spec_tokenize(chars, file) matches Err(d) ==> span_at_if_ascii(chars, d.span),
{
    lemma_lex_spans(chars, file, start_cursor(), Seq::empty());
}

/// The lexer's state while it scans a text.
struct Lexer<'a> {
    source: &'a str,
    chars: Vec<char>,
    file_name: String,
    pos: usize,
    index: usize,
    line: usize,
    column: usize,
}

impl<'a> Lexer<'a> {
    spec fn cursor(&self) -> Cursor {
        Cursor {
            index: self.index as int,
            pos: self.pos as int,
            line: self.line as int,
            column: self.column as int,
        }
    }

    spec fn wf(&self) -> bool {
        &&& 4 * self.chars.len() <= usize::MAX
        &&& self.index <= self.chars.len()
        &&& self.pos <= 4 * self.index
        &&& self.line <= self.index + 1
        &&& self.column <= self.index + 1
    }

    spec fn same_text(&self, other: &Self) -> bool {
        self.chars@ == other.chars@ && self.file_name@ == other.file_name@
    }

    fn new(source: &'a str, file_name: &str) -> (l: Self)
        requires
            4 * source@.len() <= usize::MAX,
        ensures
            l.wf(),
            l.chars@ == source@,
            l.file_name@ == file_name@,
            l.cursor() == start_cursor(),
    {
        Lexer {
            source,
            chars: chars_of(source),
            file_name: string_of(file_name),
            pos: 0,
            index: 0,
            line: 1,
            column: 1,
        }
    }

    /// The character under the cursor.
    fn peek(&self) -> (r: Option<&char>)
        ensures
            r == (if self.index < self.chars.len() {
                Some(&self.chars@[self.index as int])
            } else {
                None
            }),
    {
        if self.index < self.chars.len() {
            Some(&self.chars[self.index])
        } else {
            None
        }
    }

    /// Consumes the character under the cursor.
    fn advance(&mut self) -> (r: Option<char>)
        requires
            old(self).wf(),
        ensures
            final(self).wf(),
            final(self).same_text(old(self)),
            old(self).index < old(self).chars.len() ==> r == Some(old(self).chars@[old(
                self,
            ).index as int]) && final(self).cursor() == step(old(self).chars@, old(self).cursor()),
            old(self).index >= old(self).chars.len() ==> r is None && final(self).cursor() == old(
                self,
            ).cursor(),
    {
        let ch = match self.peek() {
            Some(c) => *c,
            None => {
                return None;
            },
        };
        self.index += 1;
        if ch == '\n' {
            self.line += 1;
            self.column = 1;
        } else {
            self.column += 1;
        }
        self.pos += utf8_len(ch);
        Some(ch)
    }

    /// Skips whitespace and comments.
    fn skip_whitespace_and_comments(&mut self)
        requires
            old(self).wf(),
        ensures
            final(self).wf(),
            final(self).same_text(old(self)),
            final(self).cursor() == skip_blank(old(self).chars@, old(self).cursor(), false),
    {
        let ghost target = skip_blank(self.chars@, self.cursor(), false);
        loop
            invariant
                self.wf(),
                self.same_text(old(self)),
                skip_blank(self.chars@, self.cursor(), false) == target,
            ensures
                self.wf(),
                self.same_text(old(self)),
                self.cursor() == target,
            decreases self.chars.len() - self.index,
        {
            let ch = match self.peek() {
                Some(c) => *c,
                None => {
                    break;
                },
            };
            if is_whitespace(ch) {
                self.advance();
            } else if ch == ';' {
                let ghost i0 = self.index;
                self.advance();
                loop
                    invariant
                        self.index > i0,
                        self.wf(),
                        self.same_text(old(self)),
                        skip_blank(self.chars@, self.cursor(), true) == target,
                    ensures
                        self.index > i0,
                        self.wf(),
                        self.same_text(old(self)),
                        skip_blank(self.chars@, self.cursor(), false) == target,
                    decreases self.chars.len() - self.index,
                {
                    let c = match self.peek() {
                        Some(c) => *c,
                        None => {
                            break;
                        },
                    };
                    if c == '\n' {
                        break;
                    }
                    self.advance();
                }
            } else {
                break;
            }
        }
    }

    /// Reads a string literal; the cursor stands on its opening quote.
    fn read_string(&mut self, start_byte: usize, start_line: usize, start_col: usize) -> (r:
        Result<Token, Diagnostic>)
        requires
            old(self).wf(),
            old(self).index < old(self).chars.len(),
            old(self).chars@[old(self).index as int] == '"',
            start_byte == old(self).pos,
            start_line == old(self).line,
            start_col == old(self).column,
        ensures
            final(self).wf(),
            final(self).same_text(old(self)),
            ({
                let chars = old(self).chars@;
                let c1 = old(self).cursor();
                let (closed, c2) = string_end(chars, step(chars, c1));
                &&& final(self).cursor() == c2
                &&& closed ==> (r matches Ok(t) && t@ == SpecToken::Str(
                    chars.subrange(c1.index + 1, c2.index - 1),
                    cursor_span(c1, c2),
                ))
                &&& !closed ==> (r matches Err(d) && d@ == spec_diag(
                    unclosed_message(chars.subrange(c1.index + 1, c2.index)),
                    old(self).file_name@,
                    cursor_span(c1, c2),
                ))
            }),
    {
        let ghost chars = self.chars@;
        let ghost c1 = self.cursor();
        self.advance();
        let ghost c0 = self.cursor();
        proof {
            lemma_string_end(chars, c0);
        }
        let mut content = String::new();
        loop
            invariant
                self.wf(),
                self.same_text(old(self)),
                chars == self.chars@,
                c0.index <= self.index,
                0 <= c1.index,
                c0.index == c1.index + 1,
                c1 == old(self).cursor(),
                c0 == step(chars, c1),
                start_byte == c1.pos,
                start_line == c1.line,
                start_col == c1.column,
                string_end(chars, self.cursor()) == string_end(chars, c0),
                content@ == chars.subrange(c0.index, self.index as int),
            ensures
                self.wf(),
                self.same_text(old(self)),
                chars == self.chars@,
                c0.index <= self.index,
                self.index >= self.chars.len(),
                string_end(chars, self.cursor()) == string_end(chars, c0),
                content@ == chars.subrange(c0.index, self.index as int),
            decreases self.chars.len() - self.index,
        {
            let ch = match self.peek() {
                Some(c) => *c,
                None => {
                    break;
                },
            };
            assert(ch == chars[self.index as int]);
            if ch == '"' {
                let ghost cq = self.cursor();
                assert(string_end(chars, cq) == (true, step(chars, cq)));
                self.advance();
                let span = Span::new(start_byte, self.pos, start_line, start_col);
                return Ok(Token::String(content, span));
            }
            let ghost i0 = self.index as int;
            let ghost old_content = content@;
            push_char(&mut content, ch);
            assert(content@ == old_content.push(ch));
            self.advance();
            assert(self.index == i0 + 1);
            assert(chars.subrange(c0.index, i0 + 1) =~= chars.subrange(c0.index, i0).push(chars[i0]));
        }
        let span = Span::new(start_byte, self.pos, start_line, start_col);
        let mut msg = string_of("unclosed string literal: `");
        push_str(&mut msg, content.as_str());
        push_str(&mut msg, "...`");
        Err(Diagnostic::new(msg, self.file_name.clone(), span))
    }

    /// Reads an identifier or a number from the cursor on.
    fn read_ident_or_number(&mut self) -> (t: Token)
        requires
            old(self).wf(),
        ensures
            final(self).wf(),
            final(self).same_text(old(self)),
            ({
                let chars = old(self).chars@;
                let c1 = old(self).cursor();
                let c2 = word_end(chars, c1);
                &&& final(self).cursor() == c2
                &&& t@ == word_token(chars.subrange(c1.index, c2.index), cursor_span(c1, c2))
            }),
    {
        let ghost chars = self.chars@;
        let ghost c1 = self.cursor();
        let start_byte = self.pos;
        let start_line = self.line;
        let start_col = self.column;
        let start_index = self.index;
        let mut text = String::new();
        loop
            invariant
                self.wf(),
                self.same_text(old(self)),
                chars == self.chars@,
                0 <= c1.index <= self.index,
                start_index == c1.index,
                word_end(chars, self.cursor()) == word_end(chars, c1),
                text@ == chars.subrange(c1.index, self.index as int),
            ensures
                self.wf(),
                self.same_text(old(self)),
                chars == self.chars@,
                c1.index <= self.index,
                self.cursor() == word_end(chars, c1),
                text@ == chars.subrange(c1.index, self.index as int),
            decreases self.chars.len() - self.index,
        {
            let ch = match self.peek() {
                Some(c) => *c,
                None => {
                    break;
                },
            };
            if is_whitespace(ch) || ch == '(' || ch == ')' || ch == ';' {
                break;
            }
            push_char(&mut text, ch);
            self.advance();
            assert(text@ =~= chars.subrange(c1.index, self.index as int));
        }
        let span = Span::new(start_byte, self.pos, start_line, start_col);
        if self.index > start_index && is_ascii_digit(self.chars[start_index]) {
            Token::Number(text, span)
        } else {
            Token::Ident(text, span)
        }
    }

    /// Reads the tokens from the cursor to the end of the text.
    fn tokenize(&mut self) -> (r: Result<Vec<Token>, Diagnostic>)
        requires
            old(self).wf(),
        ensures
            lex_result_view(r) == spec_lex(
                old(self).chars@,
                old(self).file_name@,
                old(self).cursor(),
                Seq::empty(),
            ),
    {
        let ghost chars = self.chars@;
        let ghost file = self.file_name@;
        let ghost target = spec_lex(chars, file, self.cursor(), Seq::empty());
        let mut tokens: Vec<Token> = Vec::new();
        assert(tokens_view(tokens@) =~= Seq::<SpecToken>::empty());
        loop
            invariant
                self.wf(),
                chars == self.chars@,
                file == self.file_name@,
                spec_lex(chars, file, self.cursor(), tokens_view(tokens@)) == target,
                target == spec_lex(old(self).chars@, old(self).file_name@, old(self).cursor(), Seq::empty()),
            ensures
                self.wf(),
                chars == self.chars@,
                file == self.file_name@,
                spec_lex(chars, file, self.cursor(), tokens_view(tokens@)) == target,
                skip_blank(chars, self.cursor(), false) == self.cursor(),
                !in_text(chars, self.cursor()),
                target == spec_lex(old(self).chars@, old(self).file_name@, old(self).cursor(), Seq::empty()),
            decreases self.chars.len() - self.index,
        {
            if self.peek().is_none() {
                break;
            }
            let ghost c0 = self.cursor();
            let ghost acc = tokens_view(tokens@);
            assert(spec_lex(chars, file, c0, acc) == target);
            self.skip_whitespace_and_comments();
            proof {
                lemma_skip_blank(chars, c0, false);
            }
            let ch = match self.peek() {
                Some(c) => *c,
                None => {
                    break;
                },
            };
            let ghost c1 = self.cursor();
            if ch == '(' {
                let start_byte = self.pos;
                let start_line = self.line;
                let start_col = self.column;
                self.advance();
                let span = Span::new(start_byte, self.pos, start_line, start_col);
                tokens.push(Token::LParen(span));
                assert(tokens_view(tokens@) =~= acc.push(SpecToken::LParen(span)));
            } else if ch == ')' {
                let start_byte = self.pos;
                let start_line = self.line;
                let start_col = self.column;
                self.advance();
                let span = Span::new(start_byte, self.pos, start_line, start_col);
                tokens.push(Token::RParen(span));
                assert(tokens_view(tokens@) =~= acc.push(SpecToken::RParen(span)));
            } else if ch == '"' {
                let start_byte = self.pos;
                let start_line = self.line;
                let start_col = self.column;
                let string_token = match self.read_string(start_byte, start_line, start_col) {
                    Ok(t) => t,
                    Err(d) => {
                        return Err(d);
                    },
                };
                proof {
                    lemma_string_end(chars, step(chars, c1));
                }
                tokens.push(string_token);
                assert(tokens_view(tokens@) =~= acc.push(string_token@));
            } else {
                if !is_ascii_graphic(ch) && !is_whitespace(ch) {
                    let span = Span::new(self.pos, self.pos + utf8_len(ch), self.line, self.column);
                    let mut msg = string_of("unexpected character `");
                    push_char(&mut msg, ch);
                    push_str(&mut msg, "`");
                    assert(msg@ =~= unexpected_message(ch));
                    return Err(Diagnostic::new(msg, self.file_name.clone(), span));
                }
                proof {
                    lemma_word_end(chars, c1);
                }
                let token = self.read_ident_or_number();
                tokens.push(token);
                assert(tokens_view(tokens@) =~= acc.push(token@));
            }
        }
        let ghost acc = tokens_view(tokens@);
        let eof_span = Span::new(self.pos, self.pos, self.line, self.column);
        assert(spec_lex(chars, file, self.cursor(), acc) == Ok::<Seq<SpecToken>, SpecDiag>(
            acc.push(SpecToken::Eof(eof_span)),
        ));
        tokens.push(Token::Eof(eof_span));
        assert(tokens_view(tokens@) =~= acc.push(SpecToken::Eof(eof_span)));
        Ok(tokens)
    }
}

/// Splits a source text into tokens, ended by an `Eof` token at the end of
/// the text; or reports the first lexical error: a string literal without its
/// closing quote, or a character that is neither printable ASCII nor
/// whitespace outside a string or comment.
pub fn tokenize(source: &str, file_name: &str) -> (r: Result<Vec<Token>, Diagnostic>)
    requires
        4 * source@.len() <= usize::MAX,
    ensures
        lex_result_view(r) == spec_tokenize(source@, file_name@),
{
    let mut lexer = Lexer::new(source, file_name);
    lexer.tokenize()
}

} // verus!

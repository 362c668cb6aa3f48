//! Source positions and the diagnostics that every stage reports.
use vstd::prelude::*;
use crate::text::{
    chars_of, lines_of, nat_text, push_char, push_str, push_usize, split_lines, string_of,
    usize_to_string,
};

verus! {

/// A range of a source file, `start..end` (byte offsets in the spans of
/// tokens, character indices in those of `from_char_range`), and the line
/// and column (both counted from 1) where it starts.
#[derive(Debug, Clone, Copy, PartialEq, Eq, Structural)]
pub struct Span {
    pub start: usize,
    pub end: usize,
    pub line: usize,
    pub column: usize,
}

/// An error found in a source file, with where it was found.
#[derive(Debug)]
pub struct Diagnostic {
    pub message: String,
    pub file: String,
    pub span: Span,
}

/// The mathematical value of a `Diagnostic`.
pub struct SpecDiag {
    pub message: Seq<char>,
    pub file: Seq<char>,
    pub span: Span,
}

impl View for Diagnostic {
    type V = SpecDiag;

    open spec fn view(&self) -> SpecDiag {
        SpecDiag { message: self.message@, file: self.file@, span: self.span }
    }
}

/// The diagnostic with the given message, file name and span.
pub open spec fn spec_diag(message: Seq<char>, file: Seq<char>, span: Span) -> SpecDiag {
    SpecDiag { message, file, span }
}

/// The span with the given fields.
pub open spec fn mk_span(start: int, end: int, line: int, column: int) -> Span {
    Span { start: start as usize, end: end as usize, line: line as usize, column: column as usize }
}

impl Diagnostic {
    /// Creates a diagnostic.
    pub fn new(message: String, file: String, span: Span) -> (d: Self)
        ensures
            d.message == message,
            d.file == file,
            d.span == span,
    {
        Diagnostic { message, file, span }
    }
}

/// A diagnostic whose message is `message`, for the file `file`.
pub fn diag(message: &str, file: &str, span: Span) -> (d: Diagnostic)
    ensures
        d@ == spec_diag(message@, file@, span),
{
    Diagnostic::new(string_of(message), string_of(file), span)
}

/// A diagnostic whose message is `message`, for the file `file`.
pub fn diag_owned(message: String, file: &str, span: Span) -> (d: Diagnostic)
    ensures
        d@ == spec_diag(message@, file@, span),
{
    Diagnostic::new(message, string_of(file), span)
}

/// Line and column (both from 1) reached after the first `n` characters of
/// `chars`: a newline starts the next line.
pub open spec fn line_col_after(chars: Seq<char>, n: int) -> (int, int)
    decreases n,
{
    if n <= 0 {
        (1, 1)
    } else {
        let (line, col) = line_col_after(chars, n - 1);
        if chars[n - 1] == '\n' {
            (line + 1, 1)
        } else {
            (line, col + 1)
        }
    }
}

/// Line and column of the character at index `pos` of `chars` (for an index
/// past the end, those just after the last character).
pub open spec fn spec_line_col(chars: Seq<char>, pos: int) -> (int, int) {
    line_col_after(chars, if pos < chars.len() {
        pos
    } else {
        chars.len() as int
    })
}

impl Span {
    /// Creates a span.
    pub fn new(start: usize, end: usize, line: usize, column: usize) -> (s: Self)
        ensures
            s == (Span { start, end, line, column }),
    {
        Span { start, end, line, column }
    }

    /// The span of the characters `start..end` of `source` (indices of
    /// characters), with the line and column of the character at `start`.
    pub fn from_char_range(start: usize, end: usize, source: &str) -> (s: Self)
        requires
            source@.len() < usize::MAX,
        ensures
            s.start == start,
            s.end == end,
            s.line == spec_line_col(source@, start as int).0,
            s.column == spec_line_col(source@, start as int).1,
    {
        let (line, column) = Self::pos_to_line_col(start, source);
        Span { start, end, line, column }
    }

    fn pos_to_line_col(pos: usize, source: &str) -> (r: (usize, usize))
        requires
            source@.len() < usize::MAX,
        ensures
            r.0 == spec_line_col(source@, pos as int).0,
            r.1 == spec_line_col(source@, pos as int).1,
    {
        let chars = chars_of(source);
        let mut line: usize = 1;
        let mut column: usize = 1;
        let mut i: usize = 0;
        while i < chars.len() && i < pos
            invariant
                i <= chars.len(),
                i <= pos,
                chars@ == source@,
                chars.len() < usize::MAX,
                line <= i + 1,
                column <= i + 1,
                (line as int, column as int) == line_col_after(chars@, i as int),
            decreases chars.len() - i,
        {
            if chars[i] == '\n' {
                line += 1;
                column = 1;
            } else {
                column += 1;
            }
            i += 1;
        }
        (line, column)
    }
}

} // verus!

verus! {

/// `t` right-aligned in a field of `width` characters.
pub open spec fn pad_left(t: Seq<char>, width: int) -> Seq<char> {
    Seq::new(if width > t.len() {
        (width - t.len()) as nat
    } else {
        0
    }, |i: int| ' ') + t
}

/// `n` spaces.
pub open spec fn spaces(n: int) -> Seq<char> {
    Seq::new(if n > 0 {
        n as nat
    } else {
        0
    }, |i: int| ' ')
}

/// The width of the line-number gutter of a report on line `line`: that
/// of the line number, or of the previous one when it is shown.
pub open spec fn gutter_width(line: nat, has_prev: bool) -> int {
    if has_prev && nat_text((line - 1) as nat).len() > nat_text(line).len() {
        nat_text((line - 1) as nat).len() as int
    } else {
        nat_text(line).len() as int
    }
}

/// The report of `d` against its source text: the message, the location,
/// the previous line and the line of the error with their numbers, and a
/// caret under the column; each line ends with a newline.
pub open spec fn spec_render(d: SpecDiag, source: Seq<char>) -> Seq<char> {
    render_head(d) + render_lines(d, lines_of(source))
}

/// The message and the location.
pub open spec fn render_head(d: SpecDiag) -> Seq<char> {
    "error: "@ + d.message + "\n"@ + "  --> "@ + d.file + ":"@ + nat_text(d.span.line as nat) + ":"@
        + nat_text(d.span.column as nat) + "\n"@ + "   |\n"@
}

/// The numbered source lines `ls` around line `d.span.line`, and a caret
/// under column `d.span.column` of the line of the error.
pub open spec fn render_lines(d: SpecDiag, ls: Seq<Seq<char>>) -> Seq<char> {
    let idx = d.span.line - 1;
    let cur = if idx < ls.len() {
        ls[idx]
    } else {
        Seq::empty()
    };
    let has_prev = idx > 0 && idx - 1 < ls.len();
    let w = gutter_width(d.span.line as nat, has_prev);
    (if has_prev {
        pad_left(nat_text((d.span.line - 1) as nat), w) + " | "@ + ls[idx - 1] + "\n"@
    } else {
        Seq::empty()
    }) + (pad_left(nat_text(d.span.line as nat), w) + " | "@ + cur + "\n"@) + (spaces(
        w + 3 + d.span.column - 1,
    ) + "^\n"@ + "   |\n"@)
}

/// The one-line report of `d`: `file:line:column: error: message`.
pub open spec fn spec_render_simple(d: SpecDiag) -> Seq<char> {
    d.file + ":"@ + nat_text(d.span.line as nat) + ":"@ + nat_text(d.span.column as nat)
        + ": error: "@ + d.message
}

/// A larger number has at least as many digits.
proof fn lemma_nat_text_len_mono(a: nat, b: nat)
    requires
        a <= b,
    ensures
        nat_text(a).len() <= nat_text(b).len(),
    decreases b,
{
    if a >= 10 {
        lemma_nat_text_len_mono(a / 10, b / 10);
    } else if b >= 10 {
        assert(nat_text(a).len() == 1);
        assert(nat_text(b).len() == nat_text(b / 10).len() + 1);
    }
}

/// Appends `n` spaces to `s`.
fn push_spaces(s: &mut String, n: usize)
    ensures
        final(s)@ == old(s)@ + spaces(n as int),
{
    let mut i: usize = 0;
    while i < n
        invariant
            i <= n,
            s@ == old(s)@ + spaces(i as int),
        decreases n - i,
    {
        push_char(s, ' ');
        assert(spaces(i + 1) =~= spaces(i as int).push(' '));
        i += 1;
    }
}

/// Appends `t` to `s`, right-aligned in a field of `width` characters.
fn push_padded(s: &mut String, t: &String, width: usize)
    ensures
        final(s)@ == old(s)@ + pad_left(t@, width as int),
{
    let n = chars_of(t.as_str()).len();
    if width > n {
        push_spaces(s, width - n);
    }
    push_str(s, t.as_str());
    assert(final(s)@ =~= old(s)@ + pad_left(t@, width as int));
}

impl Diagnostic {
    /// The report that is shown for this diagnostic against the source text
    /// it was found in.
    pub fn render(&self, source: &str) -> (r: String)
        requires
            self.span.line >= 1,
            self.span.column >= 1,
            self.span.column + nat_text(self.span.line as nat).len() + 3 <= usize::MAX,
        ensures
            r@ == spec_render(self@, source@),
    {
        let lines = split_lines(&string_of(source));
        let line_idx = self.span.line - 1;
        let has_prev = line_idx > 0 && line_idx - 1 < lines.len();
        let cur_num = usize_to_string(self.span.line);
        let prev_num = usize_to_string(self.span.line - 1);
        let cur_w = chars_of(cur_num.as_str()).len();
        let prev_w = chars_of(prev_num.as_str()).len();
        proof {
            lemma_nat_text_len_mono((self.span.line - 1) as nat, self.span.line as nat);
        }
        let max_width = if has_prev && prev_w > cur_w {
            prev_w
        } else {
            cur_w
        };
        let mut r = string_of("error: ");
        push_str(&mut r, self.message.as_str());
        push_str(&mut r, "\n");
        push_str(&mut r, "  --> ");
        push_str(&mut r, self.file.as_str());
        push_str(&mut r, ":");
        push_usize(&mut r, self.span.line);
        push_str(&mut r, ":");
        push_usize(&mut r, self.span.column);
        push_str(&mut r, "\n");
        push_str(&mut r, "   |\n");
        let ghost head = r@;
        assert(head =~= render_head(self@));
        let mut prev = String::new();
        if has_prev {
            push_padded(&mut prev, &prev_num, max_width);
            push_str(&mut prev, " | ");
            push_str(&mut prev, lines[line_idx - 1].as_str());
            push_str(&mut prev, "\n");
        }
        let mut cur = String::new();
        push_padded(&mut cur, &cur_num, max_width);
        push_str(&mut cur, " | ");
        if line_idx < lines.len() {
            push_str(&mut cur, lines[line_idx].as_str());
        }
        push_str(&mut cur, "\n");
        let mut caret = String::new();
        push_spaces(&mut caret, max_width + 3 + self.span.column - 1);
        push_str(&mut caret, "^\n");
        push_str(&mut caret, "   |\n");
        proof {
            let ls = lines_of(source@);
            let idx = self.span.line - 1;
            let w = gutter_width(self.span.line as nat, has_prev);
            assert(max_width == w);
            assert(prev@ =~= (if has_prev {
                pad_left(nat_text((self.span.line - 1) as nat), w) + " | "@ + ls[idx - 1] + "\n"@
            } else {
                Seq::empty()
            }));
            let cur_line = if idx < ls.len() {
                ls[idx]
            } else {
                Seq::empty()
            };
            assert(cur@ =~= pad_left(nat_text(self.span.line as nat), w) + " | "@ + cur_line + "\n"@);
            assert(caret@ =~= spaces(w + 3 + self.span.column - 1) + "^\n"@ + "   |\n"@);
        }
        push_str(&mut r, prev.as_str());
        push_str(&mut r, cur.as_str());
        push_str(&mut r, caret.as_str());
        assert(r@ =~= render_head(self@) + render_lines(self@, lines_of(source@)));
        r
    }

    /// The one-line report of this diagnostic.
    pub fn render_simple(&self) -> (r: String)
        ensures
            r@ == spec_render_simple(self@),
    {
        let mut r = self.file.clone();
        push_str(&mut r, ":");
        push_usize(&mut r, self.span.line);
        push_str(&mut r, ":");
        push_usize(&mut r, self.span.column);
        push_str(&mut r, ": error: ");
        push_str(&mut r, self.message.as_str());
        r
    }
}

/// The value of a result whose error is a diagnostic.
pub open spec fn res_view<T: View>(r: Result<T, Diagnostic>) -> Result<T::V, SpecDiag> {
    match r {
        Ok(x) => Ok(x@),
        Err(d) => Err(d@),
    }
}

} // verus!

//! The reader: tokens to S-expressions.
use vstd::prelude::*;
use crate::error::{diag, mk_span, spec_diag, Diagnostic, Span, SpecDiag};
use crate::lexer::{tokens_view, SpecToken, Token};
use crate::text::string_of;

verus! {

/// An S-expression: an atom, or a list of S-expressions, with the span of
/// its source text (from the opening to the closing parenthesis for a list).
#[derive(Debug, PartialEq)]
pub enum SExpr {
    Atom(String, Span),
    List(Vec<SExpr>, Span),
}

/// The mathematical value of an `SExpr`.
pub enum SpecSExpr {
    Atom(Seq<char>, Span),
    List(Seq<SpecSExpr>, Span),
}

/// The value of an S-expression.
pub open spec fn sexpr_value(s: SExpr) -> SpecSExpr
    decreases s, 0int,
{
    match s {
        SExpr::Atom(a, sp) => SpecSExpr::Atom(a@, sp),
        SExpr::List(l, sp) => SpecSExpr::List(sexpr_values(l, l@.len() as int), sp),
    }
}

/// The values of the first `n` S-expressions of `l`.
pub open spec fn sexpr_values(l: Vec<SExpr>, n: int) -> Seq<SpecSExpr>
    decreases l, n,
{
    if n <= 0 || n > l@.len() {
        Seq::empty()
    } else {
        sexpr_values(l, n - 1).push(sexpr_value(l@[n - 1]))
    }
}

impl View for SExpr {
    type V = SpecSExpr;

    open spec fn view(&self) -> SpecSExpr {
        sexpr_value(*self)
    }
}

/// The values of a sequence of S-expressions.
pub open spec fn sexprs_view(s: Seq<SExpr>) -> Seq<SpecSExpr> {
    Seq::new(s.len(), |i: int| s[i]@)
}

proof fn lemma_sexpr_values(l: Vec<SExpr>, n: int)
    requires
        0 <= n <= l@.len(),
    ensures
        sexpr_values(l, n) =~= sexprs_view(l@.take(n)),
    decreases n,
{
    if n > 0 {
        lemma_sexpr_values(l, n - 1);
    }
}

pub broadcast proof fn lemma_list_view(l: Vec<SExpr>, sp: Span)
    ensures
        #[trigger] SExpr::List(l, sp)@ == SpecSExpr::List(sexprs_view(l@), sp),
{
    lemma_sexpr_values(l, l@.len() as int);
    assert(l@.take(l@.len() as int) =~= l@);
}

/// The span of an S-expression.
pub open spec fn spec_span_of(s: SpecSExpr) -> Span {
    match s {
        SpecSExpr::Atom(_, sp) => sp,
        SpecSExpr::List(_, sp) => sp,
    }
}

/// A copy of `s`.
#[verifier::loop_isolation(false)]
pub fn copy_sexpr(s: &SExpr) -> (r: SExpr)
    ensures
        r@ == s@,
    decreases s,
{
    match s {
        SExpr::Atom(a, sp) => SExpr::Atom(a.clone(), *sp),
        SExpr::List(l, sp) => {
            let mut v: Vec<SExpr> = Vec::new();
            let mut i: usize = 0;
            while i < l.len()
                invariant
                    i <= l.len(),
                    v.len() == i,
                    forall|j: int| 0 <= j < i ==> v[j]@ == l[j]@,
                decreases l.len() - i,
            {
                let c = copy_sexpr(&l[i]);
                v.push(c);
                i += 1;
            }
            proof {
                lemma_list_view(v, *sp);
                lemma_list_view(*l, *sp);
                assert(sexprs_view(v@) =~= sexprs_view(l@));
            }
            SExpr::List(v, *sp)
        },
    }
}

/// Copies of the S-expressions `s[from..]`.
pub fn copy_sexprs_from(s: &[SExpr], from: usize) -> (r: Vec<SExpr>)
    requires
        from <= s@.len(),
    ensures
        sexprs_view(r@) == sexprs_view(s@.skip(from as int)),
{
    let mut v: Vec<SExpr> = Vec::new();
    let mut i: usize = from;
    while i < s.len()
        invariant
            from <= i <= s@.len(),
            v.len() == i - from,
            forall|j: int| 0 <= j < v.len() ==> (#[trigger] v@[j])@ == s@[from + j]@,
        decreases s.len() - i,
    {
        let c = copy_sexpr(&s[i]);
        v.push(c);
        i += 1;
    }
    assert(sexprs_view(v@) =~= sexprs_view(s@.skip(from as int)));
    v
}

impl Clone for SExpr {
    fn clone(&self) -> (r: Self)
        ensures
            r@ == self@,
    {
        copy_sexpr(self)
    }
}

/// The value of the reader's result.
pub open spec fn sexprs_result_view(r: Result<Vec<SExpr>, Diagnostic>) -> Result<
    Seq<SpecSExpr>,
    SpecDiag,
> {
    match r {
        Ok(v) => Ok(sexprs_view(v@)),
        Err(d) => Err(d@),
    }
}

/// The atom that an identifier, number or string token reads as.
pub open spec fn token_atom(t: SpecToken) -> Option<SpecSExpr> {
    match t {
        SpecToken::Ident(s, sp) => Some(SpecSExpr::Atom(s, sp)),
        SpecToken::Number(s, sp) => Some(SpecSExpr::Atom(s, sp)),
        SpecToken::Str(s, sp) => Some(SpecSExpr::Atom(s, sp)),
        _ => None,
    }
}

/// Reading the elements of a list whose `(` has span `lp`, from token `i`
/// on, after the elements `acc`: the list and the index after its `)`.
pub open spec fn spec_parse_elems(
    toks: Seq<SpecToken>,
    file: Seq<char>,
    i: int,
    lp: Span,
    acc: Seq<SpecSExpr>,
) -> Result<(SpecSExpr, int), SpecDiag>
    decreases toks.len() - i,
{
    if i < 0 || i >= toks.len() {
        Err(spec_diag("unclosed '('"@, file, lp))
    } else {
        match toks[i] {
            SpecToken::RParen(sp) => Ok(
                (SpecSExpr::List(acc, mk_span(lp.start as int, sp.end as int, lp.line as int, lp.column as int)), i + 1),
            ),
            SpecToken::LParen(sp) => match spec_parse_elems(toks, file, i + 1, sp, Seq::empty()) {
                Ok((sub, j)) => if j <= i || j > toks.len() {
                    Err(spec_diag(Seq::empty(), file, lp))
                } else {
                    spec_parse_elems(toks, file, j, lp, acc.push(sub))
                },
                Err(e) => Err(e),
            },
            SpecToken::Eof(sp) => Err(spec_diag("unclosed '('"@, file, sp)),
            _ => spec_parse_elems(toks, file, i + 1, lp, acc.push(token_atom(toks[i])->0)),
        }
    }
}

pub proof fn lemma_parse_elems_advances(
    toks: Seq<SpecToken>,
    file: Seq<char>,
    i: int,
    lp: Span,
    acc: Seq<SpecSExpr>,
)
    ensures
        spec_parse_elems(toks, file, i, lp, acc) matches Ok((_, j)) ==> i < j <= toks.len(),
    decreases toks.len() - i,
{
    if 0 <= i < toks.len() {
        match toks[i] {
            SpecToken::RParen(sp) => {},
            SpecToken::LParen(sp) => {
                lemma_parse_elems_advances(toks, file, i + 1, sp, Seq::empty());
                match spec_parse_elems(toks, file, i + 1, sp, Seq::empty()) {
                    Ok((sub, j)) => {
                        if i < j <= toks.len() {
                            lemma_parse_elems_advances(toks, file, j, lp, acc.push(sub));
                        }
                    },
                    Err(e) => {},
                }
            },
            SpecToken::Eof(sp) => {},
            _ => {
                lemma_parse_elems_advances(toks, file, i + 1, lp, acc.push(token_atom(toks[i])->0));
            },
        }
    }
}

/// Reading the list whose `(` is token `i`: the list and the index after
/// its `)`.
pub open spec fn spec_parse_list(toks: Seq<SpecToken>, file: Seq<char>, i: int) -> Result<
    (SpecSExpr, int),
    SpecDiag,
> {
    if 0 <= i < toks.len() && toks[i] is LParen {
        spec_parse_elems(toks, file, i + 1, toks[i]->LParen_0, Seq::empty())
    } else {
        Err(spec_diag("expected '('"@, file, mk_span(0, 0, 1, 1)))
    }
}

/// Reading top-level S-expressions from token `i` on, after those in `acc`,
/// up to `Eof` or the end of the tokens.
pub open spec fn spec_parse_top(
    toks: Seq<SpecToken>,
    file: Seq<char>,
    i: int,
    acc: Seq<SpecSExpr>,
) -> Result<Seq<SpecSExpr>, SpecDiag>
    decreases toks.len() - i,
{
    if i < 0 || i >= toks.len() {
        Ok(acc)
    } else {
        match toks[i] {
            SpecToken::Eof(_) => Ok(acc),
            SpecToken::RParen(sp) => Err(spec_diag("unexpected ')'"@, file, sp)),
            SpecToken::LParen(_) => match spec_parse_list(toks, file, i) {
                Ok((l, j)) => if j <= i || j > toks.len() {
                    Err(spec_diag(Seq::empty(), file, mk_span(0, 0, 1, 1)))
                } else {
                    spec_parse_top(toks, file, j, acc.push(l))
                },
                Err(e) => Err(e),
            },
            _ => spec_parse_top(toks, file, i + 1, acc.push(token_atom(toks[i])->0)),
        }
    }
}

/// The S-expressions that the tokens `toks` of the file `file` read as.
pub open spec fn spec_parse_sexprs(toks: Seq<SpecToken>, file: Seq<char>) -> Result<
    Seq<SpecSExpr>,
    SpecDiag,
> {
    spec_parse_top(toks, file, 0, Seq::empty())
}

/// A reader over a sequence of tokens.
pub struct Parser {
    tokens: Vec<Token>,
    file_name: String,
    index: usize,
}

impl Parser {
    /// The tokens being read.
    pub closed spec fn token_values(&self) -> Seq<SpecToken> {
        tokens_view(self.tokens@)
    }

    /// The name of the file the tokens come from.
    pub closed spec fn file(&self) -> Seq<char> {
        self.file_name@
    }

    /// The index of the next token to read.
    pub closed spec fn position(&self) -> int {
        self.index as int
    }

    /// The index is within the tokens.
    pub closed spec fn wf(&self) -> bool {
        self.index <= self.tokens.len()
    }

    /// A reader at the first of `tokens`.
    pub fn new(tokens: Vec<Token>, file_name: &str) -> (p: Self)
        ensures
            p.wf(),
            p.token_values() == tokens_view(tokens@),
            p.file() == file_name@,
            p.position() == 0,
    {
        Parser { tokens, file_name: string_of(file_name), index: 0 }
    }

    fn peek(&self) -> (r: Option<&Token>)
        ensures
            r == (if self.index < self.tokens.len() {
                Some(&self.tokens@[self.index as int])
            } else {
                None
            }),
    {
        if self.index < self.tokens.len() {
            Some(&self.tokens[self.index])
        } else {
            None
        }
    }

    /// Consumes the next token, returning a copy of it.
    fn advance(&mut self) -> (r: Option<Token>)
        requires
            old(self).index < old(self).tokens.len(),
        ensures
            final(self).tokens == old(self).tokens,
            final(self).file_name == old(self).file_name,
            final(self).index == old(self).index + 1,
            r matches Some(t) && t@ == old(self).tokens@[old(self).index as int]@,
    {
        let tok = match &self.tokens[self.index] {
            Token::LParen(sp) => Token::LParen(*sp),
            Token::RParen(sp) => Token::RParen(*sp),
            Token::Ident(s, sp) => Token::Ident(s.clone(), *sp),
            Token::Number(s, sp) => Token::Number(s.clone(), *sp),
            Token::String(s, sp) => Token::String(s.clone(), *sp),
            Token::Eof(sp) => Token::Eof(*sp),
        };
        self.index += 1;
        Some(tok)
    }

    /// Reads all top-level S-expressions, up to `Eof`; an unmatched `)` or an
    /// unclosed `(` is an error.
    pub fn parse_sexprs(&mut self) -> (r: Result<Vec<SExpr>, Diagnostic>)
        requires
            old(self).wf(),
        ensures
            final(self).wf(),
            final(self).token_values() == old(self).token_values(),
            final(self).file() == old(self).file(),
            sexprs_result_view(r) == spec_parse_top(
                old(self).token_values(),
                old(self).file(),
                old(self).position(),
                Seq::empty(),
            ),
    {
        let ghost toks = tokens_view(self.tokens@);
        let ghost file = self.file_name@;
        let ghost target = spec_parse_top(toks, file, self.index as int, Seq::empty());
        let mut sexprs: Vec<SExpr> = Vec::new();
        assert(sexprs_view(sexprs@) =~= Seq::<SpecSExpr>::empty());
        loop
            invariant
                self.index <= self.tokens.len(),
                toks == tokens_view(self.tokens@),
                file == self.file_name@,
                toks == old(self).token_values(),
                file == old(self).file(),
                spec_parse_top(toks, file, self.index as int, sexprs_view(sexprs@)) == target,
                target == spec_parse_top(
                    old(self).token_values(),
                    old(self).file(),
                    old(self).position(),
                    Seq::empty(),
                ),
            ensures
                self.index <= self.tokens.len(),
                toks == tokens_view(self.tokens@),
                file == self.file_name@,
                toks == old(self).token_values(),
                file == old(self).file(),
                target == spec_parse_top(
                    old(self).token_values(),
                    old(self).file(),
                    old(self).position(),
                    Seq::empty(),
                ),
                target == Ok::<Seq<SpecSExpr>, SpecDiag>(sexprs_view(sexprs@)),
            decreases self.tokens.len() - self.index,
        {
            let ghost acc = sexprs_view(sexprs@);
            let i = self.index;
            if i >= self.tokens.len() {
                break;
            }
            assert(toks[i as int] == self.tokens@[i as int]@);
            match &self.tokens[i] {
                Token::Eof(_) => {
                    break;
                },
                Token::LParen(_) => {
                    let list = match self.parse_list() {
                        Ok(l) => l,
                        Err(d) => {
                            return Err(d);
                        },
                    };
                    proof {
                        lemma_parse_elems_advances(
                            toks,
                            file,
                            i + 1,
                            toks[i as int]->LParen_0,
                            Seq::empty(),
                        );
                    }
                    sexprs.push(list);
                    assert(sexprs_view(sexprs@) =~= acc.push(list@));
                },
                Token::RParen(span) => {
                    return Err(diag("unexpected ')'", self.file_name.as_str(), *span));
                },
                Token::Ident(s, sp) | Token::Number(s, sp) | Token::String(s, sp) => {
                    let atom = SExpr::Atom(s.clone(), *sp);
                    self.index += 1;
                    sexprs.push(atom);
                    assert(sexprs_view(sexprs@) =~= acc.push(atom@));
                },
            }
        }
        Ok(sexprs)
    }

    /// Reads one list; the next token is its `(`.
    fn parse_list(&mut self) -> (r: Result<SExpr, Diagnostic>)
        requires
            old(self).index < old(self).tokens.len(),
            old(self).tokens@[old(self).index as int] is LParen,
        ensures
            final(self).tokens == old(self).tokens,
            final(self).file_name == old(self).file_name,
            final(self).index <= final(self).tokens.len(),
            ({
                let spec = spec_parse_list(
                    tokens_view(old(self).tokens@),
                    old(self).file_name@,
                    old(self).index as int,
                );
                match r {
                    Ok(s) => spec == Ok::<(SpecSExpr, int), SpecDiag>((s@, final(self).index as int)),
                    Err(d) => spec == Err::<(SpecSExpr, int), SpecDiag>(d@),
                }
            }),
        decreases old(self).tokens.len() - old(self).index,
    {
        let ghost toks = tokens_view(self.tokens@);
        let ghost file = self.file_name@;
        let ghost i0 = self.index as int;
        let lparen_span = match &self.tokens[self.index] {
            Token::LParen(span) => *span,
            _ => {
                return Err(diag("expected '('", self.file_name.as_str(), Span::new(0, 0, 1, 1)));
            },
        };
        assert(toks[i0] == self.tokens@[i0]@);
        self.index += 1;
        let ghost target = spec_parse_elems(toks, file, i0 + 1, lparen_span, Seq::empty());
        let mut elements: Vec<SExpr> = Vec::new();
        assert(sexprs_view(elements@) =~= Seq::<SpecSExpr>::empty());
        loop
            invariant
                i0 < self.index <= self.tokens.len(),
                toks == tokens_view(self.tokens@),
                self.tokens == old(self).tokens,
                self.file_name == old(self).file_name,
                file == self.file_name@,
                i0 == old(self).index,
                target == spec_parse_list(toks, file, i0),
                spec_parse_elems(toks, file, self.index as int, lparen_span, sexprs_view(elements@))
                    == target,
            ensures
                self.index >= self.tokens.len(),
                toks == tokens_view(self.tokens@),
                self.tokens == old(self).tokens,
                self.file_name == old(self).file_name,
                file == self.file_name@,
                i0 == old(self).index,
                target == spec_parse_list(toks, file, i0),
                spec_parse_elems(toks, file, self.index as int, lparen_span, sexprs_view(elements@))
                    == target,
            decreases self.tokens.len() - self.index,
        {
            let ghost acc = sexprs_view(elements@);
            let i = self.index;
            if i >= self.tokens.len() {
                break;
            }
            assert(toks[i as int] == self.tokens@[i as int]@);
            match &self.tokens[i] {
                Token::RParen(span) => {
                    let closing_span = *span;
                    self.index += 1;
                    let list_span = Span::new(
                        lparen_span.start,
                        closing_span.end,
                        lparen_span.line,
                        lparen_span.column,
                    );
                    proof {
                        lemma_list_view(elements, list_span);
                    }
                    return Ok(SExpr::List(elements, list_span));
                },
                Token::LParen(_) => {
                    let sub = match self.parse_list() {
                        Ok(l) => l,
                        Err(d) => {
                            return Err(d);
                        },
                    };
                    proof {
                        lemma_parse_elems_advances(
                            toks,
                            file,
                            i + 1,
                            toks[i as int]->LParen_0,
                            Seq::empty(),
                        );
                    }
                    elements.push(sub);
                    assert(sexprs_view(elements@) =~= acc.push(sub@));
                },
                Token::Ident(s, sp) | Token::Number(s, sp) | Token::String(s, sp) => {
                    let atom = SExpr::Atom(s.clone(), *sp);
                    self.index += 1;
                    elements.push(atom);
                    assert(sexprs_view(elements@) =~= acc.push(atom@));
                },
                Token::Eof(span) => {
                    return Err(diag("unclosed '('", self.file_name.as_str(), *span));
                },
            }
        }
        Err(diag("unclosed '('", self.file_name.as_str(), lparen_span))
    }
}

/// Reads the S-expressions of a sequence of tokens.
pub fn parse_sexprs(tokens: Vec<Token>, file_name: &str) -> (r: Result<Vec<SExpr>, Diagnostic>)
    ensures
        sexprs_result_view(r) == spec_parse_sexprs(tokens_view(tokens@), file_name@),
{
    let mut parser = Parser::new(tokens, file_name);
    parser.parse_sexprs()
}

} // verus!

//! The annotation mini-language: a lexer for the micro-syntax found in a
//! single comment line, and a parser that turns its token stream into a
//! type hint.
//!
//! The grammar, informally:
//!
//! ```text
//! hint               := '#'? "@type" primitive_or_union
//! primitive_or_union := "string" | "number" | "boolean" | union
//! union              := literal (pipes literal)*  with trailing pipes allowed
//! ```

use vstd::prelude::*;

use crate::strutil::{
    ascii_alpha, ascii_lower, first_not, is_ascii_alpha, lemma_first_not_bounds, lemma_first_not_is, lex_wsp, p_lex_wsp, p_lower, p_not_quote, str_eq,
};

verus! {

/// What a lexed token is.
#[derive(PartialEq, Eq, Structural, Debug, Clone, Copy)]
pub enum TokenKind {
    Keyword,
    Pound,
    StringType,
    NumberType,
    BooleanType,
    StringLiteral,
    Pipe,
    Eof,
    Illegal,
}

/// A token: its kind and the text it was lexed from.
#[derive(Debug, Clone, Copy)]
pub struct Token<'source> {
    pub kind: TokenKind,
    pub text: &'source str,
}

/// The mathematical picture of one lexed token: its kind, its text, and
/// the cursor position after it.
pub struct TokV {
    pub kind: TokenKind,
    pub text: Seq<char>,
    pub end: int,
}

/// The token lexed from `s` at cursor `pos`, together with the cursor
/// position after it. Every non-end token moves the cursor one past the
/// last position its own rule examined, so two tokens not parted by
/// whitespace swallow the character between them; the end of input is
/// reported again and again without moving.
pub open spec fn spec_token_at(s: Seq<char>, pos: int) -> TokV
    recommends
        0 <= pos <= s.len(),
{
    let j = first_not(s, pos, p_lex_wsp());
    if !(0 <= j < s.len()) {
        TokV { kind: TokenKind::Eof, text: Seq::empty(), end: s.len() as int }
    } else {
        let c = s[j];
        let t = if c == '@' {
            let k = first_not(s, j + 1, p_lower());
            let txt = s.subrange(j, k);
            TokV {
                kind: if txt == "@type"@ {
                    TokenKind::Keyword
                } else {
                    TokenKind::Illegal
                },
                text: txt,
                end: k,
            }
        } else if c == '\'' {
            let k = first_not(s, j + 1, p_not_quote());
            if !(0 <= k < s.len()) {
                TokV { kind: TokenKind::Illegal, text: s.subrange(j, s.len() as int), end: s.len() as int }
            } else {
                TokV { kind: TokenKind::StringLiteral, text: s.subrange(j, k + 1), end: k + 1 }
            }
        } else if c == '|' {
            TokV { kind: TokenKind::Pipe, text: seq!['|'], end: j }
        } else if is_ascii_alpha(c) {
            let k = first_not(s, j, p_lower());
            let txt = s.subrange(j, k);
            TokV {
                kind: if txt == "string"@ {
                    TokenKind::StringType
                } else if txt == "number"@ {
                    TokenKind::NumberType
                } else if txt == "boolean"@ {
                    TokenKind::BooleanType
                } else {
                    TokenKind::Illegal
                },
                text: txt,
                end: k,
            }
        } else if c == '#' {
            TokV { kind: TokenKind::Pound, text: seq!['#'], end: j }
        } else {
            TokV { kind: TokenKind::Illegal, text: s.subrange(j, j + 1), end: j }
        };
        TokV {
            kind: t.kind,
            text: t.text,
            end: if t.end + 1 <= s.len() {
                t.end + 1
            } else {
                s.len() as int
            },
        }
    }
}

/// The token's cursor never runs backwards, stays in bounds, and strictly
/// advances except at the end of input.
pub proof fn lemma_token_at_bounds(s: Seq<char>, pos: int)
    requires
        0 <= pos <= s.len(),
    ensures
        pos <= spec_token_at(s, pos).end <= s.len(),
        spec_token_at(s, pos).kind != TokenKind::Eof ==> spec_token_at(s, pos).end > pos,
        spec_token_at(s, pos).kind == TokenKind::StringLiteral ==> spec_token_at(
            s,
            pos,
        ).text.len() >= 2,
{
    lemma_first_not_bounds(s, pos, p_lex_wsp());
    let j = first_not(s, pos, p_lex_wsp());
    if 0 <= j < s.len() {
        let c = s[j];
        if c == '@' {
            lemma_first_not_bounds(s, j + 1, p_lower());
        } else if c == '\'' {
            lemma_first_not_bounds(s, j + 1, p_not_quote());
        } else if c == '|' {
        } else if is_ascii_alpha(c) {
            lemma_first_not_bounds(s, j, p_lower());
        }
    }
}

/// The cursor of the lexer: the source text and a position within it.
pub struct Lexer<'source> {
    source: &'source str,
    position: usize,
    length: usize,
}

impl<'source> Lexer<'source> {
    /// The source text being lexed.
    pub closed spec fn src(self) -> Seq<char> {
        self.source@
    }

    /// The current cursor position, in characters.
    pub closed spec fn pos(self) -> int {
        self.position as int
    }

    /// The cursor stays within the source.
    pub closed spec fn wf(self) -> bool {
        self.length == self.source@.len() && self.position <= self.length
    }

    pub fn new(source: &'source str) -> (r: Self)
        ensures
            r.wf(),
            r.src() == source@,
            r.pos() == 0,
    {
        let length = source.unicode_len();
        Self { position: 0, source, length }
    }

    /// The character under the cursor, if any.
    fn char(&self) -> (r: Option<char>)
        requires
            self.wf(),
        ensures
            self.pos() < self.src().len() ==> r == Some(self.src()[self.pos()]),
            self.pos() >= self.src().len() ==> r is None,
    {
        if self.position < self.length {
            Some(self.source.get_char(self.position))
        } else {
            None
        }
    }

    /// Moves the cursor to the first non-whitespace character at or after
    /// it and returns what stands there.
    fn char_skipping_whitespace(&mut self) -> (r: Option<char>)
        requires
            old(self).wf(),
        ensures
            final(self).wf(),
            final(self).src() == old(self).src(),
            final(self).pos() == first_not(old(self).src(), old(self).pos(), p_lex_wsp()),
            final(self).pos() < final(self).src().len() ==> r == Some(
                final(self).src()[final(self).pos()],
            ) && !crate::strutil::is_lex_wsp(final(self).src()[final(self).pos()]),
            final(self).pos() >= final(self).src().len() ==> r is None,
    {
        loop
            invariant
                self.wf(),
                self.src() == old(self).src(),
                old(self).pos() <= self.pos(),
                forall|j: int|
                    old(self).pos() <= j < self.pos() ==> crate::strutil::is_lex_wsp(
                        self.src()[j],
                    ),
            decreases self.src().len() - self.pos(),
        {
            match self.char() {
                Some(c) => {
                    if lex_wsp(c) {
                        self.step();
                    } else {
                        proof {
                            lemma_first_not_is(
                                self.src(),
                                old(self).pos(),
                                self.pos(),
                                p_lex_wsp(),
                            );
                        }
                        return Some(c);
                    }
                },
                None => {
                    proof {
                        lemma_first_not_is(self.src(), old(self).pos(), self.pos(), p_lex_wsp());
                    }
                    return None;
                },
            }
        }
    }

    /// Advances the cursor one character, never past the end.
    fn step(&mut self)
        requires
            old(self).wf(),
        ensures
            final(self).wf(),
            final(self).src() == old(self).src(),
            old(self).pos() < old(self).src().len() ==> final(self).pos() == old(self).pos() + 1,
            old(self).pos() >= old(self).src().len() ==> final(self).pos() == old(self).pos(),
    {
        if self.position < self.length {
            self.position += 1;
        }
    }

    /// Lexes the next token and leaves the cursor after it.
    pub fn next_token(&mut self) -> (t: Token<'source>)
        requires
            old(self).wf(),
        ensures
            final(self).wf(),
            final(self).src() == old(self).src(),
            t.kind == spec_token_at(old(self).src(), old(self).pos()).kind,
            t.text@ == spec_token_at(old(self).src(), old(self).pos()).text,
            final(self).pos() == spec_token_at(old(self).src(), old(self).pos()).end,
    {
        let ghost s = self.src();
        let ghost p0 = self.pos();
        let Some(ch) = self.char_skipping_whitespace() else {
            proof {
                reveal_strlit("");
                assert(""@ =~= Seq::<char>::empty());
            }
            return Token { kind: TokenKind::Eof, text: "" };
        };

        let token = match ch {
            '@' => self.lex_keyword("@type"),
            '\'' => self.lex_string_literal(),
            '|' => {
                proof {
                    reveal_strlit("|");
                    assert("|"@ =~= seq!['|']);
                }
                Token { kind: TokenKind::Pipe, text: "|" }
            },
            c if ascii_alpha(c) => self.lex_type(),
            '#' => {
                proof {
                    reveal_strlit("#");
                    assert("#"@ =~= seq!['#']);
                }
                Token { kind: TokenKind::Pound, text: "#" }
            },
            _ => {
                let text = self.source.substring_char(self.position, self.position + 1);
                Token { kind: TokenKind::Illegal, text }
            },
        };

        self.step();

        token
    }

    /// Lexes a run of lower-case letters and classifies it as one of the
    /// three primitive type keywords, or as illegal text.
    fn lex_type(&mut self) -> (t: Token<'source>)
        requires
            old(self).wf(),
            old(self).pos() < old(self).src().len(),
        ensures
            final(self).wf(),
            final(self).src() == old(self).src(),
            final(self).pos() == first_not(old(self).src(), old(self).pos(), p_lower()),
            t.text@ == old(self).src().subrange(old(self).pos(), final(self).pos()),
            t.kind == (if t.text@ == "string"@ {
                TokenKind::StringType
            } else if t.text@ == "number"@ {
                TokenKind::NumberType
            } else if t.text@ == "boolean"@ {
                TokenKind::BooleanType
            } else {
                TokenKind::Illegal
            }),
    {
        let start = self.position;

        self.scan_lowercase();

        proof {
            lemma_first_not_bounds(self.src(), old(self).pos(), p_lower());
        }
        let s = self.source.substring_char(start, self.position);

        if str_eq(s, "string") {
            Token { kind: TokenKind::StringType, text: s }
        } else if str_eq(s, "number") {
            Token { kind: TokenKind::NumberType, text: s }
        } else if str_eq(s, "boolean") {
            Token { kind: TokenKind::BooleanType, text: s }
        } else {
            Token { kind: TokenKind::Illegal, text: s }
        }
    }

    /// Lexes `'@'` plus the following run of lower-case letters; the token
    /// is the keyword only when the text is exactly `keyword`.
    fn lex_keyword(&mut self, keyword: &str) -> (t: Token<'source>)
        requires
            old(self).wf(),
            old(self).pos() < old(self).src().len(),
        ensures
            final(self).wf(),
            final(self).src() == old(self).src(),
            final(self).pos() == first_not(old(self).src(), old(self).pos() + 1, p_lower()),
            t.text@ == old(self).src().subrange(old(self).pos(), final(self).pos()),
            t.kind == (if t.text@ == keyword@ {
                TokenKind::Keyword
            } else {
                TokenKind::Illegal
            }),
    {
        let start = self.position;

        self.step();

        self.scan_lowercase();

        proof {
            lemma_first_not_bounds(self.src(), old(self).pos() + 1, p_lower());
        }
        let s = self.source.substring_char(start, self.position);

        if str_eq(s, keyword) {
            Token { kind: TokenKind::Keyword, text: s }
        } else {
            Token { kind: TokenKind::Illegal, text: s }
        }
    }

    /// Moves the cursor past a run of lower-case letters.
    fn scan_lowercase(&mut self)
        requires
            old(self).wf(),
        ensures
            final(self).wf(),
            final(self).src() == old(self).src(),
            final(self).pos() == first_not(old(self).src(), old(self).pos(), p_lower()),
    {
        loop
            invariant
                self.wf(),
                self.src() == old(self).src(),
                old(self).pos() <= self.pos(),
                forall|j: int|
                    old(self).pos() <= j < self.pos() ==> crate::strutil::is_ascii_lower(
                        self.src()[j],
                    ),
            decreases self.src().len() - self.pos(),
        {
            let keep = match self.char() {
                Some(c) => ascii_lower(c),
                None => false,
            };
            if keep {
                self.step();
            } else {
                proof {
                    lemma_first_not_is(self.src(), old(self).pos(), self.pos(), p_lower());
                }
                return ;
            }
        }
    }

    /// Lexes a quoted string literal; when the closing quote is missing
    /// the unterminated fragment is an illegal token.
    fn lex_string_literal(&mut self) -> (t: Token<'source>)
        requires
            old(self).wf(),
            old(self).pos() < old(self).src().len(),
            old(self).src()[old(self).pos()] == '\'',
        ensures
            final(self).wf(),
            final(self).src() == old(self).src(),
            ({
                let s = old(self).src();
                let k = first_not(s, old(self).pos() + 1, p_not_quote());
                if !(0 <= k < s.len()) {
                    &&& t.kind == TokenKind::Illegal
                    &&& t.text@ == s.subrange(old(self).pos(), s.len() as int)
                    &&& final(self).pos() == s.len()
                } else {
                    &&& t.kind == TokenKind::StringLiteral
                    &&& t.text@ == s.subrange(old(self).pos(), k + 1)
                    &&& final(self).pos() == k + 1
                }
            }),
    {
        let start = self.position;

        self.step();

        loop
            invariant
                self.wf(),
                self.src() == old(self).src(),
                old(self).pos() + 1 <= self.pos(),
                forall|j: int| old(self).pos() + 1 <= j < self.pos() ==> self.src()[j] != '\'',
            ensures
                self.wf(),
                self.src() == old(self).src(),
                old(self).pos() + 1 <= self.pos(),
                self.pos() == first_not(old(self).src(), old(self).pos() + 1, p_not_quote()),
                self.pos() < self.src().len() ==> self.src()[self.pos()] == '\'',
            decreases self.src().len() - self.pos(),
        {
            let keep = match self.char() {
                Some(c) => c != '\'',
                None => false,
            };
            if keep {
                self.step();
            } else {
                proof {
                    lemma_first_not_is(
                        self.src(),
                        old(self).pos() + 1,
                        self.pos(),
                        p_not_quote(),
                    );
                }
                break ;
            }
        }

        match self.char() {
            Some(_) => {
                // the closing quote
                self.step();
                let s = self.source.substring_char(start, self.position);
                Token { kind: TokenKind::StringLiteral, text: s }
            },
            None => {
                let s = self.source.substring_char(start, self.position);
                Token { kind: TokenKind::Illegal, text: s }
            },
        }
    }
}

/// The mathematical value of a type hint: one of the three primitives, or
/// an ordered union of literal strings (stored without their quotes).
pub enum HintV {
    String,
    Number,
    Boolean,
    Union(Seq<Seq<char>>),
}

/// A parsed type hint. A union holds its literals without their quotes,
/// in source order.
#[derive(Debug)]
pub enum TypeHint {
    String,
    Number,
    Boolean,
    Union(Vec<String>),
}

impl View for TypeHint {
    type V = HintV;

    open spec fn view(&self) -> HintV {
        match self {
            TypeHint::String => HintV::String,
            TypeHint::Number => HintV::Number,
            TypeHint::Boolean => HintV::Boolean,
            TypeHint::Union(v) => HintV::Union(v.deep_view()),
        }
    }
}

impl DeepView for TypeHint {
    type V = HintV;

    open spec fn deep_view(&self) -> HintV {
        self.view()
    }
}

impl PartialEq for TypeHint {
    /// Two hints are equal exactly when they are the same variant and,
    /// for unions, hold the same literals in the same order.
    fn eq(&self, other: &Self) -> (r: bool) {
        match (self, other) {
            (TypeHint::String, TypeHint::String) => true,
            (TypeHint::Number, TypeHint::Number) => true,
            (TypeHint::Boolean, TypeHint::Boolean) => true,
            (TypeHint::Union(a), TypeHint::Union(b)) => {
                let an = a.len();
                if an != b.len() {
                    assert(a.deep_view().len() != b.deep_view().len());
                    return false;
                }
                let mut i: usize = 0;
                while i < an
                    invariant
                        an == a@.len(),
                        an == b@.len(),
                        i <= an,
                        self@ == HintV::Union(a.deep_view()),
                        other@ == HintV::Union(b.deep_view()),
                        forall|j: int| 0 <= j < i ==> a.deep_view()[j] == b.deep_view()[j],
                    decreases an - i,
                {
                    if !str_eq(a[i].as_str(), b[i].as_str()) {
                        assert(a.deep_view()[i as int] != b.deep_view()[i as int]);
                        return false;
                    }
                    i += 1;
                }
                proof {
                    assert(a.deep_view() =~= b.deep_view());
                }
                true
            },
            _ => {
                assert(self@ != other@);
                false
            },
        }
    }
}

impl vstd::std_specs::cmp::PartialEqSpecImpl for TypeHint {
    open spec fn obeys_eq_spec() -> bool {
        true
    }

    open spec fn eq_spec(&self, other: &Self) -> bool {
        self@ == other@
    }
}

impl Eq for TypeHint {

}

impl Clone for TypeHint {
    /// A clone denotes the same hint.
    fn clone(&self) -> (r: Self)
        ensures
            r@ == self@,
    {
        match self {
            TypeHint::String => TypeHint::String,
            TypeHint::Number => TypeHint::Number,
            TypeHint::Boolean => TypeHint::Boolean,
            TypeHint::Union(v) => {
                let mut c: Vec<String> = Vec::new();
                let n = v.len();
                let mut i: usize = 0;
                while i < n
                    invariant
                        n == v@.len(),
                        i <= n,
                        c.deep_view() =~= v.deep_view().take(i as int),
                    decreases n - i,
                {
                    let ghost old_dv = c.deep_view();
                    c.push(v[i].clone());
                    proof {
                        assert(c.deep_view() =~= old_dv.push(v@[i as int]@));
                        assert(c.deep_view() =~= v.deep_view().take(i + 1 as int));
                    }
                    i += 1;
                }
                proof {
                    assert(v.deep_view().take(n as int) =~= v.deep_view());
                }
                TypeHint::Union(c)
            },
        }
    }
}

/// A union literal put back between its quotes.
pub open spec fn quoted(l: Seq<char>) -> Seq<char> {
    seq!['\''] + l + seq!['\'']
}

/// `quoted` as a predicate value shared by every use site.
pub open spec fn p_quoted() -> spec_fn(Seq<char>) -> Seq<char> {
    |l: Seq<char>| quoted(l)
}

/// The source form of a hint: the primitive keyword, or the quoted
/// literals parted by pipes.
pub open spec fn spec_hint_render(h: HintV) -> Seq<char> {
    match h {
        HintV::String => "string"@,
        HintV::Number => "number"@,
        HintV::Boolean => "boolean"@,
        HintV::Union(ls) => crate::strutil::spec_join(ls.map_values(p_quoted()), " | "@),
    }
}

impl TypeHint {
    /// Renders the hint the way it is written in an annotation.
    pub fn render(&self) -> (r: String)
        ensures
            r@ == spec_hint_render(self@),
    {
        match self {
            TypeHint::String => String::from_str("string"),
            TypeHint::Number => String::from_str("number"),
            TypeHint::Boolean => String::from_str("boolean"),
            TypeHint::Union(ls) => {
                proof {
                    reveal_strlit("'");
                }
                let mut qs: Vec<String> = Vec::new();
                let n = ls.len();
                let mut i: usize = 0;
                while i < n
                    invariant
                        n == ls@.len(),
                        i <= n,
                        qs.deep_view() =~= ls.deep_view().map_values(p_quoted()).take(i as int),
                    decreases n - i,
                {
                    let q = String::from_str("'").concat(ls[i].as_str()).concat("'");
                    proof {
                        reveal_strlit("'");
                        assert(q@ =~= quoted(ls.deep_view()[i as int]));
                    }
                    let ghost old_dv = qs.deep_view();
                    qs.push(q);
                    proof {
                        assert(qs.deep_view() =~= old_dv.push(q@));
                        assert(qs.deep_view() =~= ls.deep_view().map_values(p_quoted()).take(
                            i + 1 as int,
                        ));
                    }
                    i += 1;
                }
                proof {
                    assert(ls.deep_view().map_values(p_quoted()).take(n as int) =~= ls.deep_view()
                        .map_values(p_quoted()));
                }
                crate::strutil::join(&qs, " | ")
            },
        }
    }
}

/// Reads a value as a type hint, answering nothing when it holds none.
pub trait ParseTyeHint {
    /// The hint this value denotes, if any.
    spec fn hint_spec(&self) -> Option<HintV>;

    /// Parses the value as an annotation, permissively: a malformed
    /// annotation is no hint.
    fn into_type_hint(self) -> (r: Option<TypeHint>) where Self: Sized
        ensures
            r.deep_view() == self.hint_spec(),
    ;
}

impl<'a> ParseTyeHint for &'a str {
    open spec fn hint_spec(&self) -> Option<HintV> {
        spec_hint_opt(self@)
    }

    fn into_type_hint(self) -> (r: Option<TypeHint>) {
        let mut parser = Parser::new(self);
        match parser.parse() {
            Ok(h) => Some(h),
            Err(_) => None,
        }
    }
}

/// The mathematical value of an annotation parse error.
pub enum PErrV {
    ExpectedToken { expected: TokenKind, found_kind: TokenKind, found_text: Seq<char> },
    UnexpectedEnd,
    IllegalToken { found_kind: TokenKind, found_text: Seq<char> },
}

/// Why an annotation failed to parse. The strict entry point surfaces it;
/// the permissive extractor degrades it to "no hint".
#[derive(Debug, Clone, Copy)]
pub enum ParseError<'source> {
    ExpectedToken { expected: TokenKind, found: Token<'source> },
    UnexpectedEnd,
    IllegalToken { found: Token<'source> },
}

impl<'source> View for ParseError<'source> {
    type V = PErrV;

    open spec fn view(&self) -> PErrV {
        match self {
            ParseError::ExpectedToken { expected, found } => PErrV::ExpectedToken {
                expected: *expected,
                found_kind: found.kind,
                found_text: found.text@,
            },
            ParseError::UnexpectedEnd => PErrV::UnexpectedEnd,
            ParseError::IllegalToken { found } => PErrV::IllegalToken {
                found_kind: found.kind,
                found_text: found.text@,
            },
        }
    }
}

/// A quoted literal without its two quote characters.
pub open spec fn unquote(t: Seq<char>) -> Seq<char> {
    t.subrange(1, t.len() - 1)
}

/// The cursor after every directly following pipe token.
pub open spec fn spec_skip_pipes(s: Seq<char>, i: int) -> int
    decreases s.len() - i
        when 0 <= i <= s.len()
        via spec_skip_pipes_dec
{
    let t = spec_token_at(s, i);
    if t.kind == TokenKind::Pipe {
        spec_skip_pipes(s, t.end)
    } else {
        i
    }
}

#[via_fn]
proof fn spec_skip_pipes_dec(s: Seq<char>, i: int) {
    lemma_token_at_bounds(s, i);
}

pub proof fn lemma_skip_pipes_bounds(s: Seq<char>, i: int)
    requires
        0 <= i <= s.len(),
    ensures
        i <= spec_skip_pipes(s, i) <= s.len(),
        spec_token_at(s, spec_skip_pipes(s, i)).kind != TokenKind::Pipe,
    decreases s.len() - i,
{
    lemma_token_at_bounds(s, i);
    let t = spec_token_at(s, i);
    if t.kind == TokenKind::Pipe {
        lemma_skip_pipes_bounds(s, t.end);
    }
}

/// The literals a union collects after its first one, starting from
/// cursor `i`: while the next token is a pipe, the whole run of pipes is
/// skipped, and the literal after it is taken; anything else — the end of
/// input after trailing pipes included — ends the union without error.
pub open spec fn spec_union_tail(s: Seq<char>, i: int, acc: Seq<Seq<char>>) -> Seq<Seq<char>>
    decreases s.len() - i
        when 0 <= i <= s.len()
        via spec_union_tail_dec
{
    let t = spec_token_at(s, i);
    if t.kind != TokenKind::Pipe {
        acc
    } else {
        let sp = spec_skip_pipes(s, i);
        let u = spec_token_at(s, sp);
        if u.kind == TokenKind::StringLiteral {
            spec_union_tail(s, u.end, acc.push(unquote(u.text)))
        } else {
            acc
        }
    }
}

#[via_fn]
proof fn spec_union_tail_dec(s: Seq<char>, i: int, acc: Seq<Seq<char>>) {
    lemma_skip_pipes_bounds(s, i);
    lemma_token_at_bounds(s, spec_skip_pipes(s, i));
}

/// What parsing a hint from cursor `i` yields: an optional pound, then
/// the `@type` keyword, then a primitive type or a union of literals.
pub open spec fn spec_parse_from(s: Seq<char>, i: int) -> Result<HintV, PErrV>
    recommends
        0 <= i <= s.len(),
{
    let t0 = spec_token_at(s, i);
    let t1 = if t0.kind == TokenKind::Pound {
        spec_token_at(s, t0.end)
    } else {
        t0
    };
    if t1.kind != TokenKind::Keyword {
        Err(
            PErrV::ExpectedToken {
                expected: TokenKind::Keyword,
                found_kind: t1.kind,
                found_text: t1.text,
            },
        )
    } else {
        let t2 = spec_token_at(s, t1.end);
        if t2.kind == TokenKind::StringType {
            Ok(HintV::String)
        } else if t2.kind == TokenKind::NumberType {
            Ok(HintV::Number)
        } else if t2.kind == TokenKind::BooleanType {
            Ok(HintV::Boolean)
        } else if t2.kind == TokenKind::StringLiteral {
            Ok(HintV::Union(spec_union_tail(s, t2.end, seq![unquote(t2.text)])))
        } else if t2.kind == TokenKind::Eof {
            Err(PErrV::UnexpectedEnd)
        } else {
            Err(PErrV::IllegalToken { found_kind: t2.kind, found_text: t2.text })
        }
    }
}

/// What parsing a whole annotation line yields.
pub open spec fn spec_parse_hint(s: Seq<char>) -> Result<HintV, PErrV> {
    spec_parse_from(s, 0)
}

/// The hint of an annotation line under the permissive reading: a parse
/// error is no hint.
pub open spec fn spec_hint_opt(s: Seq<char>) -> Option<HintV> {
    match spec_parse_hint(s) {
        Ok(h) => Some(h),
        Err(_) => None,
    }
}

/// The result of the executable parser, seen mathematically.
pub open spec fn parse_result_view<'a>(r: Result<TypeHint, ParseError<'a>>) -> Result<
    HintV,
    PErrV,
> {
    match r {
        Ok(h) => Ok(h@),
        Err(e) => Err(e@),
    }
}

/// The annotation parser: a lexer plus one token of lookahead state.
pub struct Parser<'source> {
    lexer: Lexer<'source>,
    token: Token<'source>,
    tok_start: Ghost<int>,
}

impl<'source> Parser<'source> {
    /// The text being parsed.
    pub closed spec fn src(self) -> Seq<char> {
        self.lexer.src()
    }

    /// The cursor the current token was lexed from.
    pub closed spec fn cur(self) -> int {
        self.tok_start@
    }

    /// The held token is the one lexed at `cur()`, and the lexer stands
    /// right after it.
    pub closed spec fn wf(self) -> bool {
        &&& self.lexer.wf()
        &&& 0 <= self.tok_start@ <= self.src().len()
        &&& self.token.kind == spec_token_at(self.src(), self.tok_start@).kind
        &&& self.token.text@ == spec_token_at(self.src(), self.tok_start@).text
        &&& self.lexer.pos() == spec_token_at(self.src(), self.tok_start@).end
    }

    pub fn new(code: &'source str) -> (r: Self)
        ensures
            r.wf(),
            r.src() == code@,
            r.cur() == 0,
    {
        let mut lexer = Lexer::new(code);
        let token = lexer.next_token();
        Self { token, lexer, tok_start: Ghost(0) }
    }

    /// Consumes the current token and holds the next one.
    fn next_token(&mut self) -> (t: Token<'source>)
        requires
            old(self).wf(),
        ensures
            final(self).wf(),
            final(self).src() == old(self).src(),
            final(self).cur() == spec_token_at(old(self).src(), old(self).cur()).end,
            t.kind == spec_token_at(final(self).src(), final(self).cur()).kind,
            t.text@ == spec_token_at(final(self).src(), final(self).cur()).text,
            t.kind == final(self).token.kind,
            t.text == final(self).token.text,
    {
        self.tok_start = Ghost(self.lexer.pos());
        self.token = self.lexer.next_token();
        self.token
    }

    /// Parses one annotation: an optional `#`, the `@type` keyword, then a
    /// primitive type name or a union of quoted literals.
    pub fn parse(&mut self) -> (r: Result<TypeHint, ParseError<'source>>)
        requires
            old(self).wf(),
        ensures
            final(self).wf(),
            parse_result_view(r) == spec_parse_from(old(self).src(), old(self).cur()),
    {
        if self.token.kind == TokenKind::Pound {
            self.next_token();
        }

        match self.expect(TokenKind::Keyword) {
            Err(e) => {
                return Err(e);
            },
            Ok(_) => {},
        }

        self.next_token();

        match self.token.kind {
            TokenKind::StringType => Ok(TypeHint::String),
            TokenKind::NumberType => Ok(TypeHint::Number),
            TokenKind::BooleanType => Ok(TypeHint::Boolean),
            TokenKind::StringLiteral => {
                let ghost s = self.src();
                let ghost acc0 = seq![unquote(spec_token_at(s, self.cur()).text)];
                let ghost le0 = spec_token_at(s, self.cur()).end;
                let ghost target = spec_union_tail(s, le0, acc0);
                proof {
                    lemma_token_at_bounds(s, self.cur());
                }
                let mut union: Vec<String> = Vec::new();
                union.push(self.unquote_token());
                proof {
                    assert(union.deep_view() =~= acc0);
                }

                loop
                    invariant_except_break
                        self.token.kind == TokenKind::StringLiteral,
                        spec_union_tail(s, spec_token_at(s, self.cur()).end, union.deep_view())
                            == target,
                    invariant
                        self.wf(),
                        self.src() == s,
                    ensures
                        self.wf(),
                        self.src() == s,
                        union.deep_view() == target,
                    decreases s.len() - self.cur(),
                {
                    let ghost cur_before = self.cur();
                    let ghost p = spec_token_at(s, cur_before).end;
                    proof {
                        lemma_token_at_bounds(s, cur_before);
                    }
                    let t = self.next_token();
                    if t.kind != TokenKind::Pipe {
                        break ;
                    }

                    // skip the whole run of consecutive pipes
                    loop
                        invariant_except_break
                            self.token.kind == TokenKind::Pipe,
                        invariant
                            self.wf(),
                            self.src() == s,
                            0 <= p <= s.len(),
                            spec_skip_pipes(s, p) == spec_skip_pipes(s, self.cur()),
                        ensures
                            self.wf(),
                            self.src() == s,
                            self.cur() == spec_skip_pipes(s, p),
                            self.token.kind != TokenKind::Pipe,
                        decreases s.len() - self.cur(),
                    {
                        let ghost it_cur = self.cur();
                        proof {
                            lemma_token_at_bounds(s, it_cur);
                        }
                        let u = self.next_token();
                        proof {
                            assert(spec_skip_pipes(s, it_cur) == spec_skip_pipes(s, self.cur()));
                        }
                        if u.kind != TokenKind::Pipe {
                            proof {
                                assert(spec_skip_pipes(s, self.cur()) == self.cur());
                            }
                            break ;
                        }
                    }

                    if self.token.kind == TokenKind::StringLiteral {
                        proof {
                            lemma_skip_pipes_bounds(s, p);
                            lemma_token_at_bounds(s, self.cur());
                        }
                        let lit = self.unquote_token();
                        let ghost old_dv = union.deep_view();
                        union.push(lit);
                        proof {
                            assert(union.deep_view() =~= old_dv.push(lit@));
                        }
                    } else {
                        proof {
                            lemma_skip_pipes_bounds(s, p);
                        }
                        break ;
                    }
                }

                Ok(TypeHint::Union(union))
            },
            TokenKind::Eof => Err(ParseError::UnexpectedEnd),
            TokenKind::Pipe | TokenKind::Illegal | TokenKind::Keyword | TokenKind::Pound => Err(
                ParseError::IllegalToken { found: self.token },
            ),
        }
    }

    /// The current token's literal text without its quotes.
    fn unquote_token(&self) -> (r: String)
        requires
            self.wf(),
            self.token.kind == TokenKind::StringLiteral,
        ensures
            r@ == unquote(spec_token_at(self.src(), self.cur()).text),
    {
        proof {
            lemma_token_at_bounds(self.src(), self.cur());
        }
        let n = self.token.text.unicode_len();
        String::from_str(self.token.text.substring_char(1, n - 1))
    }

    /// Fails with `ExpectedToken` unless the current token has `kind`.
    fn expect(&self, kind: TokenKind) -> (r: Result<(), ParseError<'source>>)
        requires
            self.wf(),
        ensures
            r is Ok <==> self.token.kind == kind,
            r is Err ==> r->Err_0@ == (PErrV::ExpectedToken {
                expected: kind,
                found_kind: spec_token_at(self.src(), self.cur()).kind,
                found_text: spec_token_at(self.src(), self.cur()).text,
            }),
    {
        if self.token.kind != kind {
            return Err(ParseError::ExpectedToken { expected: kind, found: self.token });
        }

        Ok(())
    }
}

} // verus!



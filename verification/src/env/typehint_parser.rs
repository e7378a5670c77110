//! An older form of the annotation mini-language: the same token shapes
//! without the pound marker, each token carrying its start offset, and a
//! parser that answers an optional hint, scanning past stray tokens
//! until it finds the type.

use vstd::prelude::*;

use crate::strutil::{
    ascii_alpha, ascii_lower, first_not, is_ascii_alpha, lemma_first_not_bounds, lemma_first_not_is, lex_wsp, p_lex_wsp, p_lower, p_not_quote, str_eq,
};

verus! {

/// What a lexed token is.
#[derive(PartialEq, Eq, Structural, Debug, Clone, Copy)]
pub enum TokenKind {
    Keyword,
    StringType,
    NumberType,
    BooleanType,
    StringLiteral,
    Pipe,
    Eof,
    Illegal,
}

/// A token: its kind, where it started, and the text it was lexed from.
#[derive(Debug, Clone, Copy)]
pub struct Token<'source> {
    pub kind: TokenKind,
    pub start: usize,
    pub text: &'source str,
}

/// The mathematical picture of one lexed token.
pub struct TokV {
    pub kind: TokenKind,
    pub start: int,
    pub text: Seq<char>,
    pub end: int,
}

/// The token lexed from `s` at cursor `pos`. The rules are those of
/// `crate::dotenv::typehint_parser`, except that `'#'` is no token of
/// its own here and falls through as an illegal character.
pub open spec fn spec_token_at(s: Seq<char>, pos: int) -> TokV
    recommends
        0 <= pos <= s.len(),
{
    let j = first_not(s, pos, p_lex_wsp());
    if !(0 <= j < s.len()) {
        TokV { kind: TokenKind::Eof, start: j, text: Seq::empty(), end: s.len() as int }
    } else {
        let c = s[j];
        let t = if c == '@' {
            let k = first_not(s, j + 1, p_lower());
            let txt = s.subrange(j, k);
            TokV {
                kind: if txt == "@type"@ {
                    TokenKind::Keyword
                } else {
                    TokenKind::Illegal
                },
                start: j,
                text: txt,
                end: k,
            }
        } else if c == '\'' {
            let k = first_not(s, j + 1, p_not_quote());
            if !(0 <= k < s.len()) {
                TokV {
                    kind: TokenKind::Illegal,
                    start: j,
                    text: s.subrange(j, s.len() as int),
                    end: s.len() as int,
                }
            } else {
                TokV {
                    kind: TokenKind::StringLiteral,
                    start: j,
                    text: s.subrange(j, k + 1),
                    end: k + 1,
                }
            }
        } else if c == '|' {
            TokV { kind: TokenKind::Pipe, start: j, text: seq!['|'], end: j }
        } else if is_ascii_alpha(c) {
            let k = first_not(s, j, p_lower());
            let txt = s.subrange(j, k);
            TokV {
                kind: if txt == "string"@ {
                    TokenKind::StringType
                } else if txt == "number"@ {
                    TokenKind::NumberType
                } else if txt == "boolean"@ {
                    TokenKind::BooleanType
                } else {
                    TokenKind::Illegal
                },
                start: j,
                text: txt,
                end: k,
            }
        } else {
            TokV { kind: TokenKind::Illegal, start: j, text: s.subrange(j, j + 1), end: j }
        };
        TokV {
            kind: t.kind,
            start: t.start,
            text: t.text,
            end: if t.end + 1 <= s.len() {
                t.end + 1
            } else {
                s.len() as int
            },
        }
    }
}

/// The token's cursor never runs backwards, stays in bounds, and
/// strictly advances except at the end of input.
pub proof fn lemma_token_at_bounds(s: Seq<char>, pos: int)
    requires
        0 <= pos <= s.len(),
    ensures
        pos <= spec_token_at(s, pos).end <= s.len(),
        spec_token_at(s, pos).kind != TokenKind::Eof ==> spec_token_at(s, pos).end > pos,
        spec_token_at(s, pos).kind == TokenKind::StringLiteral ==> spec_token_at(
            s,
            pos,
        ).text.len() >= 2,
{
    lemma_first_not_bounds(s, pos, p_lex_wsp());
    let j = first_not(s, pos, p_lex_wsp());
    if 0 <= j < s.len() {
        let c = s[j];
        if c == '@' {
            lemma_first_not_bounds(s, j + 1, p_lower());
        } else if c == '\'' {
            lemma_first_not_bounds(s, j + 1, p_not_quote());
        } else if c == '|' {
        } else if is_ascii_alpha(c) {
            lemma_first_not_bounds(s, j, p_lower());
        }
    }
}

/// The cursor of the lexer: the source text and a position within it.
pub struct Lexer<'source> {
    source: &'source str,
    position: usize,
    length: usize,
}

impl<'source> Lexer<'source> {
    /// The source text being lexed.
    pub closed spec fn src(self) -> Seq<char> {
        self.source@
    }

    /// The current cursor position, in characters.
    pub closed spec fn pos(self) -> int {
        self.position as int
    }

    /// The cursor stays within the source.
    pub closed spec fn wf(self) -> bool {
        self.length == self.source@.len() && self.position <= self.length
    }

    pub fn new(source: &'source str) -> (r: Self)
        ensures
            r.wf(),
            r.src() == source@,
            r.pos() == 0,
    {
        let length = source.unicode_len();
        Self { position: 0, source, length }
    }

    /// The character under the cursor, if any.
    fn char(&self) -> (r: Option<char>)
        requires
            self.wf(),
        ensures
            self.pos() < self.src().len() ==> r == Some(self.src()[self.pos()]),
            self.pos() >= self.src().len() ==> r is None,
    {
        if self.position < self.length {
            Some(self.source.get_char(self.position))
        } else {
            None
        }
    }

    /// Moves the cursor to the first non-whitespace character at or
    /// after it and returns what stands there.
    fn char_skipping_whitespace(&mut self) -> (r: Option<char>)
        requires
            old(self).wf(),
        ensures
            final(self).wf(),
            final(self).src() == old(self).src(),
            final(self).pos() == first_not(old(self).src(), old(self).pos(), p_lex_wsp()),
            final(self).pos() < final(self).src().len() ==> r == Some(
                final(self).src()[final(self).pos()],
            ),
            final(self).pos() >= final(self).src().len() ==> r is None,
    {
        loop
            invariant
                self.wf(),
                self.src() == old(self).src(),
                old(self).pos() <= self.pos(),
                forall|j: int|
                    old(self).pos() <= j < self.pos() ==> crate::strutil::is_lex_wsp(
                        self.src()[j],
                    ),
            decreases self.src().len() - self.pos(),
        {
            match self.char() {
                Some(c) => {
                    if lex_wsp(c) {
                        self.step();
                    } else {
                        proof {
                            lemma_first_not_is(
                                self.src(),
                                old(self).pos(),
                                self.pos(),
                                p_lex_wsp(),
                            );
                        }
                        return Some(c);
                    }
                },
                None => {
                    proof {
                        lemma_first_not_is(self.src(), old(self).pos(), self.pos(), p_lex_wsp());
                    }
                    return None;
                },
            }
        }
    }

    /// Advances the cursor one character, never past the end.
    fn step(&mut self)
        requires
            old(self).wf(),
        ensures
            final(self).wf(),
            final(self).src() == old(self).src(),
            old(self).pos() < old(self).src().len() ==> final(self).pos() == old(self).pos() + 1,
            old(self).pos() >= old(self).src().len() ==> final(self).pos() == old(self).pos(),
    {
        if self.position < self.length {
            self.position += 1;
        }
    }

    /// Lexes the next token and leaves the cursor after it.
    pub fn next_token(&mut self) -> (t: Token<'source>)
        requires
            old(self).wf(),
        ensures
            final(self).wf(),
            final(self).src() == old(self).src(),
            t.kind == spec_token_at(old(self).src(), old(self).pos()).kind,
            t.start as int == spec_token_at(old(self).src(), old(self).pos()).start,
            t.text@ == spec_token_at(old(self).src(), old(self).pos()).text,
            final(self).pos() == spec_token_at(old(self).src(), old(self).pos()).end,
    {
        let Some(ch) = self.char_skipping_whitespace() else {
            proof {
                reveal_strlit("");
                assert(""@ =~= Seq::<char>::empty());
            }
            return Token { kind: TokenKind::Eof, start: self.position, text: "" };
        };

        let start = self.position;
        let token = match ch {
            '@' => self.lex_keyword("@type"),
            '\'' => self.lex_string_literal(),
            '|' => {
                proof {
                    reveal_strlit("|");
                    assert("|"@ =~= seq!['|']);
                }
                Token { kind: TokenKind::Pipe, start, text: "|" }
            },
            c if ascii_alpha(c) => self.lex_type(),
            _ => {
                let text = self.source.substring_char(self.position, self.position + 1);
                Token { kind: TokenKind::Illegal, start, text }
            },
        };

        self.step();

        token
    }

    /// Lexes a run of lower-case letters and classifies it as one of the
    /// three primitive type keywords, or as illegal text.
    fn lex_type(&mut self) -> (t: Token<'source>)
        requires
            old(self).wf(),
            old(self).pos() < old(self).src().len(),
        ensures
            final(self).wf(),
            final(self).src() == old(self).src(),
            final(self).pos() == first_not(old(self).src(), old(self).pos(), p_lower()),
            t.start as int == old(self).pos(),
            t.text@ == old(self).src().subrange(old(self).pos(), final(self).pos()),
            t.kind == (if t.text@ == "string"@ {
                TokenKind::StringType
            } else if t.text@ == "number"@ {
                TokenKind::NumberType
            } else if t.text@ == "boolean"@ {
                TokenKind::BooleanType
            } else {
                TokenKind::Illegal
            }),
    {
        let start = self.position;

        self.scan_lowercase();

        proof {
            lemma_first_not_bounds(self.src(), old(self).pos(), p_lower());
        }
        let s = self.source.substring_char(start, self.position);

        if str_eq(s, "string") {
            Token { kind: TokenKind::StringType, start, text: s }
        } else if str_eq(s, "number") {
            Token { kind: TokenKind::NumberType, start, text: s }
        } else if str_eq(s, "boolean") {
            Token { kind: TokenKind::BooleanType, start, text: s }
        } else {
            Token { kind: TokenKind::Illegal, start, text: s }
        }
    }

    /// Lexes `'@'` plus the following run of lower-case letters; the
    /// token is the keyword only when the text is exactly `keyword`.
    fn lex_keyword(&mut self, keyword: &str) -> (t: Token<'source>)
        requires
            old(self).wf(),
            old(self).pos() < old(self).src().len(),
        ensures
            final(self).wf(),
            final(self).src() == old(self).src(),
            final(self).pos() == first_not(old(self).src(), old(self).pos() + 1, p_lower()),
            t.start as int == old(self).pos(),
            t.text@ == old(self).src().subrange(old(self).pos(), final(self).pos()),
            t.kind == (if t.text@ == keyword@ {
                TokenKind::Keyword
            } else {
                TokenKind::Illegal
            }),
    {
        let start = self.position;

        self.step();

        self.scan_lowercase();

        proof {
            lemma_first_not_bounds(self.src(), old(self).pos() + 1, p_lower());
        }
        let s = self.source.substring_char(start, self.position);

        if str_eq(s, keyword) {
            Token { kind: TokenKind::Keyword, start, text: s }
        } else {
            Token { kind: TokenKind::Illegal, start, text: s }
        }
    }

    /// Moves the cursor past a run of lower-case letters.
    fn scan_lowercase(&mut self)
        requires
            old(self).wf(),
        ensures
            final(self).wf(),
            final(self).src() == old(self).src(),
            final(self).pos() == first_not(old(self).src(), old(self).pos(), p_lower()),
    {
        loop
            invariant
                self.wf(),
                self.src() == old(self).src(),
                old(self).pos() <= self.pos(),
                forall|j: int|
                    old(self).pos() <= j < self.pos() ==> crate::strutil::is_ascii_lower(
                        self.src()[j],
                    ),
            decreases self.src().len() - self.pos(),
        {
            let keep = match self.char() {
                Some(c) => ascii_lower(c),
                None => false,
            };
            if keep {
                self.step();
            } else {
                proof {
                    lemma_first_not_is(self.src(), old(self).pos(), self.pos(), p_lower());
                }
                return ;
            }
        }
    }

    /// Lexes a quoted string literal; when the closing quote is missing
    /// the unterminated fragment is an illegal token.
    fn lex_string_literal(&mut self) -> (t: Token<'source>)
        requires
            old(self).wf(),
            old(self).pos() < old(self).src().len(),
            old(self).src()[old(self).pos()] == '\'',
        ensures
            final(self).wf(),
            final(self).src() == old(self).src(),
            t.start as int == old(self).pos(),
            ({
                let s = old(self).src();
                let k = first_not(s, old(self).pos() + 1, p_not_quote());
                if !(0 <= k < s.len()) {
                    &&& t.kind == TokenKind::Illegal
                    &&& t.text@ == s.subrange(old(self).pos(), s.len() as int)
                    &&& final(self).pos() == s.len()
                } else {
                    &&& t.kind == TokenKind::StringLiteral
                    &&& t.text@ == s.subrange(old(self).pos(), k + 1)
                    &&& final(self).pos() == k + 1
                }
            }),
    {
        let start = self.position;

        self.step();

        loop
            invariant
                self.wf(),
                self.src() == old(self).src(),
                old(self).pos() + 1 <= self.pos(),
                forall|j: int| old(self).pos() + 1 <= j < self.pos() ==> self.src()[j] != '\'',
            ensures
                self.wf(),
                self.src() == old(self).src(),
                old(self).pos() + 1 <= self.pos(),
                self.pos() == first_not(old(self).src(), old(self).pos() + 1, p_not_quote()),
                self.pos() < self.src().len() ==> self.src()[self.pos()] == '\'',
            decreases self.src().len() - self.pos(),
        {
            let keep = match self.char() {
                Some(c) => c != '\'',
                None => false,
            };
            if keep {
                self.step();
            } else {
                proof {
                    lemma_first_not_is(
                        self.src(),
                        old(self).pos() + 1,
                        self.pos(),
                        p_not_quote(),
                    );
                }
                break ;
            }
        }

        match self.char() {
            Some(_) => {
                // the closing quote
                self.step();
                let s = self.source.substring_char(start, self.position);
                Token { kind: TokenKind::StringLiteral, start, text: s }
            },
            None => {
                let s = self.source.substring_char(start, self.position);
                Token { kind: TokenKind::Illegal, start, text: s }
            },
        }
    }
}

/// The mathematical value of a type hint.
pub enum HintV {
    String,
    Number,
    Boolean,
    Union(Seq<Seq<char>>),
}

/// A parsed type hint. A union holds its literals without their quotes,
/// in source order.
#[derive(Debug)]
pub enum TypeHint {
    String,
    Number,
    Boolean,
    Union(Vec<String>),
}

impl View for TypeHint {
    type V = HintV;

    open spec fn view(&self) -> HintV {
        match self {
            TypeHint::String => HintV::String,
            TypeHint::Number => HintV::Number,
            TypeHint::Boolean => HintV::Boolean,
            TypeHint::Union(v) => HintV::Union(v.deep_view()),
        }
    }
}

impl DeepView for TypeHint {
    type V = HintV;

    open spec fn deep_view(&self) -> HintV {
        self.view()
    }
}

/// A quoted literal without its two quote characters.
pub open spec fn unquote(t: Seq<char>) -> Seq<char> {
    t.subrange(1, t.len() - 1)
}

/// The cursor after every directly following pipe token.
pub open spec fn spec_skip_pipes(s: Seq<char>, i: int) -> int
    decreases s.len() - i
        when 0 <= i <= s.len()
        via spec_skip_pipes_dec
{
    let t = spec_token_at(s, i);
    if t.kind == TokenKind::Pipe {
        spec_skip_pipes(s, t.end)
    } else {
        i
    }
}

#[via_fn]
proof fn spec_skip_pipes_dec(s: Seq<char>, i: int) {
    lemma_token_at_bounds(s, i);
}

pub proof fn lemma_skip_pipes_bounds(s: Seq<char>, i: int)
    requires
        0 <= i <= s.len(),
    ensures
        i <= spec_skip_pipes(s, i) <= s.len(),
        spec_token_at(s, spec_skip_pipes(s, i)).kind != TokenKind::Pipe,
    decreases s.len() - i,
{
    lemma_token_at_bounds(s, i);
    let t = spec_token_at(s, i);
    if t.kind == TokenKind::Pipe {
        lemma_skip_pipes_bounds(s, t.end);
    }
}

/// The literals a union collects after its first one: pipe runs
/// collapse, and anything that is not a literal after a run — the end
/// of input included — ends the union.
pub open spec fn spec_union_tail(s: Seq<char>, i: int, acc: Seq<Seq<char>>) -> Seq<Seq<char>>
    decreases s.len() - i
        when 0 <= i <= s.len()
        via spec_union_tail_dec
{
    let t = spec_token_at(s, i);
    if t.kind != TokenKind::Pipe {
        acc
    } else {
        let sp = spec_skip_pipes(s, i);
        let u = spec_token_at(s, sp);
        if u.kind == TokenKind::StringLiteral {
            spec_union_tail(s, u.end, acc.push(unquote(u.text)))
        } else {
            acc
        }
    }
}

#[via_fn]
proof fn spec_union_tail_dec(s: Seq<char>, i: int, acc: Seq<Seq<char>>) {
    lemma_skip_pipes_bounds(s, i);
    lemma_token_at_bounds(s, spec_skip_pipes(s, i));
}

/// Scans from cursor `i` to the first deciding token: a primitive type
/// resolves at once, a literal begins a union, the end of input is no
/// hint, and every other token is passed over.
pub open spec fn spec_scan(s: Seq<char>, i: int) -> Option<HintV>
    decreases s.len() - i
        when 0 <= i <= s.len()
        via spec_scan_dec
{
    let t = spec_token_at(s, i);
    if t.kind == TokenKind::StringType {
        Some(HintV::String)
    } else if t.kind == TokenKind::NumberType {
        Some(HintV::Number)
    } else if t.kind == TokenKind::BooleanType {
        Some(HintV::Boolean)
    } else if t.kind == TokenKind::StringLiteral {
        Some(HintV::Union(spec_union_tail(s, t.end, seq![unquote(t.text)])))
    } else if t.kind == TokenKind::Eof {
        None
    } else {
        spec_scan(s, t.end)
    }
}

#[via_fn]
proof fn spec_scan_dec(s: Seq<char>, i: int) {
    lemma_token_at_bounds(s, i);
}

/// What parsing from cursor `i` yields: nothing unless the token there
/// is the `@type` keyword, then whatever the scan finds.
pub open spec fn spec_parse_env_from(s: Seq<char>, i: int) -> Option<HintV>
    recommends
        0 <= i <= s.len(),
{
    if spec_token_at(s, i).kind != TokenKind::Keyword {
        None
    } else {
        spec_scan(s, i)
    }
}

/// What parsing a whole annotation line yields.
pub open spec fn spec_parse_env(s: Seq<char>) -> Option<HintV> {
    spec_parse_env_from(s, 0)
}

/// The result of the executable parser, seen mathematically.
pub open spec fn opt_hint_view(r: Option<TypeHint>) -> Option<HintV> {
    match r {
        Some(h) => Some(h@),
        None => None,
    }
}

/// The annotation parser: a lexer plus one token of lookahead state.
pub struct Parser<'source> {
    lexer: Lexer<'source>,
    token: Token<'source>,
    tok_start: Ghost<int>,
}

impl<'source> Parser<'source> {
    /// The text being parsed.
    pub closed spec fn src(self) -> Seq<char> {
        self.lexer.src()
    }

    /// The cursor the current token was lexed from.
    pub closed spec fn cur(self) -> int {
        self.tok_start@
    }

    /// The held token is the one lexed at `cur()`, and the lexer stands
    /// right after it.
    pub closed spec fn wf(self) -> bool {
        &&& self.lexer.wf()
        &&& 0 <= self.tok_start@ <= self.src().len()
        &&& self.token.kind == spec_token_at(self.src(), self.tok_start@).kind
        &&& self.token.text@ == spec_token_at(self.src(), self.tok_start@).text
        &&& self.lexer.pos() == spec_token_at(self.src(), self.tok_start@).end
    }

    pub fn new(code: &'source str) -> (r: Self)
        ensures
            r.wf(),
            r.src() == code@,
            r.cur() == 0,
    {
        let mut lexer = Lexer::new(code);
        let token = lexer.next_token();
        Self { token, lexer, tok_start: Ghost(0) }
    }

    /// Consumes the current token and holds the next one.
    fn next_token(&mut self) -> (t: Token<'source>)
        requires
            old(self).wf(),
        ensures
            final(self).wf(),
            final(self).src() == old(self).src(),
            final(self).cur() == spec_token_at(old(self).src(), old(self).cur()).end,
            t.kind == spec_token_at(final(self).src(), final(self).cur()).kind,
            t.text@ == spec_token_at(final(self).src(), final(self).cur()).text,
    {
        self.tok_start = Ghost(self.lexer.pos());
        self.token = self.lexer.next_token();
        self.token
    }

    /// The current token's literal text without its quotes.
    fn unquote_token(&self) -> (r: String)
        requires
            self.wf(),
            self.token.kind == TokenKind::StringLiteral,
        ensures
            r@ == unquote(spec_token_at(self.src(), self.cur()).text),
    {
        proof {
            lemma_token_at_bounds(self.src(), self.cur());
        }
        let n = self.token.text.unicode_len();
        String::from_str(self.token.text.substring_char(1, n - 1))
    }

    /// Parses an annotation permissively: no keyword or no type found is
    /// simply no hint.
    pub fn parse(&mut self) -> (r: Option<TypeHint>)
        requires
            old(self).wf(),
        ensures
            final(self).wf(),
            opt_hint_view(r) == spec_parse_env_from(old(self).src(), old(self).cur()),
    {
        let ghost s = self.src();
        let ghost c0 = self.cur();
        if self.token.kind != TokenKind::Keyword {
            return None;
        }

        loop
            invariant
                self.wf(),
                self.src() == s,
                s == old(self).src(),
                c0 == old(self).cur(),
                spec_token_at(s, c0).kind == TokenKind::Keyword,
                spec_scan(s, c0) == spec_scan(s, self.cur()),
            decreases s.len() - self.cur(),
        {
            match self.token.kind {
                TokenKind::StringType => {
                    return Some(TypeHint::String);
                },
                TokenKind::NumberType => {
                    return Some(TypeHint::Number);
                },
                TokenKind::BooleanType => {
                    return Some(TypeHint::Boolean);
                },
                TokenKind::StringLiteral => {
                    let ghost acc0 = seq![unquote(spec_token_at(s, self.cur()).text)];
                    let ghost le0 = spec_token_at(s, self.cur()).end;
                    let ghost target = spec_union_tail(s, le0, acc0);
                    proof {
                        lemma_token_at_bounds(s, self.cur());
                    }
                    let mut union: Vec<String> = Vec::new();
                    union.push(self.unquote_token());
                    proof {
                        assert(union.deep_view() =~= acc0);
                    }

                    loop
                        invariant_except_break
                            self.token.kind == TokenKind::StringLiteral,
                            spec_union_tail(
                                s,
                                spec_token_at(s, self.cur()).end,
                                union.deep_view(),
                            ) == target,
                        invariant
                            self.wf(),
                            self.src() == s,
                        ensures
                            self.wf(),
                            self.src() == s,
                            union.deep_view() == target,
                        decreases s.len() - self.cur(),
                    {
                        let ghost cur_before = self.cur();
                        let ghost p = spec_token_at(s, cur_before).end;
                        proof {
                            lemma_token_at_bounds(s, cur_before);
                        }
                        let t = self.next_token();
                        if t.kind != TokenKind::Pipe {
                            break ;
                        }

                        // skip the whole run of consecutive pipes
                        loop
                            invariant_except_break
                                self.token.kind == TokenKind::Pipe,
                            invariant
                                self.wf(),
                                self.src() == s,
                                0 <= p <= s.len(),
                                spec_skip_pipes(s, p) == spec_skip_pipes(s, self.cur()),
                            ensures
                                self.wf(),
                                self.src() == s,
                                self.cur() == spec_skip_pipes(s, p),
                                self.token.kind != TokenKind::Pipe,
                            decreases s.len() - self.cur(),
                        {
                            let ghost it_cur = self.cur();
                            proof {
                                lemma_token_at_bounds(s, it_cur);
                            }
                            let u = self.next_token();
                            proof {
                                assert(spec_skip_pipes(s, it_cur) == spec_skip_pipes(
                                    s,
                                    self.cur(),
                                ));
                            }
                            if u.kind != TokenKind::Pipe {
                                proof {
                                    assert(spec_skip_pipes(s, self.cur()) == self.cur());
                                }
                                break ;
                            }
                        }

                        if self.token.kind == TokenKind::StringLiteral {
                            proof {
                                lemma_skip_pipes_bounds(s, p);
                                lemma_token_at_bounds(s, self.cur());
                            }
                            let lit = self.unquote_token();
                            let ghost old_dv = union.deep_view();
                            union.push(lit);
                            proof {
                                assert(union.deep_view() =~= old_dv.push(lit@));
                            }
                        } else {
                            proof {
                                lemma_skip_pipes_bounds(s, p);
                            }
                            break ;
                        }
                    }

                    return Some(TypeHint::Union(union));
                },
                TokenKind::Eof => {
                    return None;
                },
                TokenKind::Pipe | TokenKind::Illegal | TokenKind::Keyword => {
                    proof {
                        lemma_token_at_bounds(s, self.cur());
                    }
                    self.next_token();
                },
            }
        }
    }
}

/// Reads a value as a type hint, answering nothing when it holds none.
pub trait ParseTyeHint {
    /// The hint this value denotes, if any.
    spec fn hint_spec(&self) -> Option<HintV>;

    /// Parses the value as an annotation, permissively.
    fn into_type_hint(self) -> (r: Option<TypeHint>) where Self: Sized
        ensures
            r.deep_view() == self.hint_spec(),
    ;
}

impl<'a> ParseTyeHint for &'a str {
    open spec fn hint_spec(&self) -> Option<HintV> {
        spec_parse_env(self@)
    }

    fn into_type_hint(self) -> (r: Option<TypeHint>) {
        let mut parser = Parser::new(self);
        parser.parse()
    }
}

} // verus!


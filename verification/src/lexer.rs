//! The lexer: whitespace-separated tokens over a byte source, classified by their first byte, and
//! the by-value token limiter that travels in the lexer state.
//!
//! Lexing is a pure function of the source, the position and the state ([`lex_step`]); the input
//! layer's promise that "the cache is invisible" rests on that determinism.
use vstd::prelude::*;
use crate::span::{SimpleSpan, Spanned};
use crate::token_limiter::{TokenLimiter, increased_count};

verus! {

/// The kind of a token.
#[derive(Debug, Clone, Copy, PartialEq, Eq, Hash, Structural)]
pub enum TokenKind {
    /// A run starting with a decimal digit.
    Num,
    /// Any other run.
    Word,
    /// A run starting with `~`: trivia.
    Trivia,
    /// A run starting with `;`.
    Semi,
}

impl TokenKind {
    /// The kind itself.
    pub fn kind(&self) -> (r: TokenKind)
        ensures
            r == *self,
    {
        *self
    }

    /// Whether the token is trivia.
    pub fn is_trivia(&self) -> (r: bool)
        ensures
            r == (*self == TokenKind::Trivia),
    {
        match self {
            TokenKind::Trivia => true,
            _ => false,
        }
    }
}

/// A token and its span.
pub type Token = Spanned<TokenKind>;

/// A lexed token together with the lexer state that produced it.
#[derive(Debug, Clone, Copy, PartialEq, Eq)]
pub struct CachedToken {
    pub tok: Token,
    pub state: TokenLimiter,
}

/// Whitespace separates tokens: space, tab, line feed, carriage return.
pub open spec fn is_space(b: u8) -> bool {
    b == 32u8 || b == 9u8 || b == 10u8 || b == 13u8
}

/// The first non-space position at or after `pos`.
pub open spec fn skip_space(src: Seq<u8>, pos: int) -> int
    decreases src.len() - pos,
{
    if 0 <= pos < src.len() && is_space(src[pos]) {
        skip_space(src, pos + 1)
    } else {
        pos
    }
}

/// The first space (or the end) at or after `pos`.
pub open spec fn run_end(src: Seq<u8>, pos: int) -> int
    decreases src.len() - pos,
{
    if 0 <= pos < src.len() && !is_space(src[pos]) {
        run_end(src, pos + 1)
    } else {
        pos
    }
}

/// The kind a token starting with byte `b` has.
pub open spec fn kind_of(b: u8) -> TokenKind {
    if 48u8 <= b <= 57u8 {
        TokenKind::Num
    } else if b == 126u8 {
        TokenKind::Trivia
    } else if b == 59u8 {
        TokenKind::Semi
    } else {
        TokenKind::Word
    }
}

/// The token lexed at `pos`, if one is there.
pub open spec fn lexed_token(src: Seq<u8>, pos: int) -> Option<Token> {
    let s = skip_space(src, pos);
    if s < src.len() {
        Some(
            Spanned {
                span: SimpleSpan { start: s as usize, end: run_end(src, s) as usize },
                data: kind_of(src[s]),
            },
        )
    } else {
        None
    }
}

/// One lexer step.
pub enum LexStep {
    /// No token remains; the lexer's own span collapses at `end`.
    Eof(usize),
    /// A token, with the state after it.
    Token(CachedToken),
    /// A token whose count passed the limiter: a terminal stop.
    Trip(Token),
}

/// The state after counting one more token.
pub open spec fn counted(st: TokenLimiter) -> TokenLimiter {
    TokenLimiter { tokens: increased_count(st.tokens), limitation: st.limitation }
}

/// The step lexing from `pos` under state `st` takes.
pub open spec fn lex_step(src: Seq<u8>, pos: int, st: TokenLimiter) -> LexStep {
    match lexed_token(src, pos) {
        None => LexStep::Eof(skip_space(src, pos) as usize),
        Some(tok) => {
            let st2 = counted(st);
            if st2.tokens > st2.limitation {
                LexStep::Trip(tok)
            } else {
                LexStep::Token(CachedToken { tok, state: st2 })
            }
        },
    }
}

/// The `n` tokens lexing from `pos` under `st` produces in a row (shorter if a step is not a token).
pub open spec fn chain(src: Seq<u8>, pos: int, st: TokenLimiter, n: nat) -> Seq<CachedToken>
    decreases n,
{
    if n == 0 {
        Seq::empty()
    } else {
        match lex_step(src, pos, st) {
            LexStep::Token(ct) => seq![ct] + chain(src, ct.tok.span.end as int, ct.state, (n - 1) as nat),
            _ => Seq::empty(),
        }
    }
}

/// Where lexing resumes after a chain of `s` tokens that started at `pos` under `st`.
pub open spec fn chain_end_pos(pos: int, s: Seq<CachedToken>) -> int {
    if s.len() == 0 { pos } else { s.last().tok.span.end as int }
}

/// The state lexing resumes under after a chain `s` that started under `st`.
pub open spec fn chain_end_state(st: TokenLimiter, s: Seq<CachedToken>) -> TokenLimiter {
    if s.len() == 0 { st } else { s.last().state }
}

proof fn lemma_skip_space_bounds(src: Seq<u8>, pos: int)
    requires
        0 <= pos <= src.len(),
    ensures
        pos <= skip_space(src, pos) <= src.len(),
        skip_space(src, pos) < src.len() ==> !is_space(src[skip_space(src, pos)]),
    decreases src.len() - pos,
{
    if pos < src.len() && is_space(src[pos]) {
        lemma_skip_space_bounds(src, pos + 1);
    }
}

proof fn lemma_run_end_bounds(src: Seq<u8>, pos: int)
    requires
        0 <= pos <= src.len(),
    ensures
        pos <= run_end(src, pos) <= src.len(),
    decreases src.len() - pos,
{
    if pos < src.len() && !is_space(src[pos]) {
        lemma_run_end_bounds(src, pos + 1);
    }
}

/// A lexed token lies inside the source, after `pos`, and is never empty.
pub proof fn lemma_lexed_token_bounds(src: Seq<u8>, pos: int)
    requires
        0 <= pos <= src.len(),
        src.len() <= usize::MAX,
    ensures
        lexed_token(src, pos) matches Some(t) ==> pos <= t.span.start < t.span.end <= src.len(),
        lexed_token(src, pos) is None ==> skip_space(src, pos) == src.len(),
        pos <= skip_space(src, pos) <= src.len(),
{
    lemma_skip_space_bounds(src, pos);
    let s = skip_space(src, pos);
    if s < src.len() {
        lemma_run_end_bounds(src, s);
        assert(run_end(src, s) == run_end(src, s + 1));
        lemma_run_end_bounds(src, s + 1);
    }
}

/// Extending a chain by one more token step.
pub proof fn lemma_chain_push(src: Seq<u8>, pos: int, st: TokenLimiter, n: nat)
    requires
        chain(src, pos, st, n).len() == n,
        lex_step(
            src,
            chain_end_pos(pos, chain(src, pos, st, n)),
            chain_end_state(st, chain(src, pos, st, n)),
        ) is Token,
    ensures
        chain(src, pos, st, n + 1) == chain(src, pos, st, n).push(
            lex_step(
                src,
                chain_end_pos(pos, chain(src, pos, st, n)),
                chain_end_state(st, chain(src, pos, st, n)),
            )->Token_0,
        ),
    decreases n,
{
    if n == 0 {
        assert(chain(src, pos, st, 0) =~= Seq::<CachedToken>::empty());
        let ct = lex_step(src, pos, st)->Token_0;
        assert(chain(src, ct.tok.span.end as int, ct.state, 0) =~= Seq::<CachedToken>::empty());
        assert(chain(src, pos, st, 1) =~= seq![ct]);
    } else {
        let ct = lex_step(src, pos, st)->Token_0;
        let rest = chain(src, ct.tok.span.end as int, ct.state, (n - 1) as nat);
        assert(chain(src, pos, st, n) == seq![ct] + rest);
        if n > 1 {
            assert(chain(src, pos, st, n).last() == rest.last());
        } else {
            assert(rest.len() == 0);
        }
        lemma_chain_push(src, ct.tok.span.end as int, ct.state, (n - 1) as nat);
        assert(chain(src, pos, st, n + 1) =~= chain(src, pos, st, n).push(
            lex_step(
                src,
                chain_end_pos(pos, chain(src, pos, st, n)),
                chain_end_state(st, chain(src, pos, st, n)),
            )->Token_0,
        ));
    }
}

/// Whether the byte is whitespace.
fn byte_is_space(b: u8) -> (r: bool)
    ensures
        r == is_space(b),
{
    b == 32u8 || b == 9u8 || b == 10u8 || b == 13u8
}

/// The kind a token starting with `b` has.
fn classify_byte(b: u8) -> (r: TokenKind)
    ensures
        r == kind_of(b),
{
    if 48u8 <= b && b <= 57u8 {
        TokenKind::Num
    } else if b == 126u8 {
        TokenKind::Trivia
    } else if b == 59u8 {
        TokenKind::Semi
    } else {
        TokenKind::Word
    }
}

/// The first non-space position at or after `pos`.
pub fn skip_space_at(src: &Vec<u8>, pos: usize) -> (r: usize)
    requires
        pos <= src@.len(),
    ensures
        r == skip_space(src@, pos as int),
{
    let mut i = pos;
    while i < src.len() && byte_is_space(src[i])
        invariant
            pos <= i <= src@.len(),
            skip_space(src@, pos as int) == skip_space(src@, i as int),
        decreases src@.len() - i,
    {
        i = i + 1;
    }
    i
}

/// Lexes the token at `pos`, if one is there.
pub fn lex_at(src: &Vec<u8>, pos: usize) -> (r: Option<Token>)
    requires
        pos <= src@.len(),
    ensures
        r == lexed_token(src@, pos as int),
{
    let s = skip_space_at(src, pos);
    proof {
        lemma_skip_space_bounds(src@, pos as int);
    }
    if s >= src.len() {
        return None;
    }
    let mut e = s;
    while e < src.len() && !byte_is_space(src[e])
        invariant
            s <= e <= src@.len(),
            run_end(src@, s as int) == run_end(src@, e as int),
        decreases src@.len() - e,
    {
        e = e + 1;
    }
    let kind = classify_byte(src[s]);
    Some(Spanned { span: SimpleSpan { start: s, end: e }, data: kind })
}

/// One lexer step from `pos` under `st`.
pub fn lex_step_at(src: &Vec<u8>, pos: usize, st: TokenLimiter) -> (r: LexStep)
    requires
        pos <= src@.len(),
    ensures
        r == lex_step(src@, pos as int, st),
{
    match lex_at(src, pos) {
        None => LexStep::Eof(skip_space_at(src, pos)),
        Some(tok) => {
            let mut st2 = st;
            st2.increase();
            if st2.tokens > st2.limitation {
                LexStep::Trip(tok)
            } else {
                LexStep::Token(CachedToken { tok, state: st2 })
            }
        },
    }
}

} // verus!

//! Operator-precedence parsing over the token stream: a grammar says which tokens start an
//! expression (operands and prefix operators) and which continue one (postfix, infix and
//! adjacent operators, with their binding powers), and three folds combine the parts.
use vstd::prelude::*;
use vstd::std_specs::convert::FromSpec;
use crate::error::{NonAssociativeChain, UnexpectedEoLhs, UnexpectedEoRhs, UnexpectedEot};
use crate::emitter::{Channel, Emission, EmitterMode};
use crate::input::consume::{Expect, expect_answer};
use crate::input::descent::{limit_reached, raised_level};
use crate::input::{InputModel, InputRef, Pull};
use crate::lexer::Token;
use crate::recursion::RecursionLimitReached;
use crate::span::{SimpleSpan, Spanned};
use crate::token_limiter::TokenLimitExceeded;

verus! {

/// How a token can start an expression.
#[derive(Debug, Clone, Copy, PartialEq, Eq, Structural)]
pub enum PrattLhs {
    /// An operand.
    Operand,
    /// A prefix operator binding its operand at the power.
    Prefix(u32),
}

/// How an infix operator associates.
#[derive(Debug, Clone, Copy, PartialEq, Eq, Structural)]
pub enum PrattAssoc {
    Left,
    Right,
    Neither,
}

/// How a token can continue an expression.
#[derive(Debug, Clone, Copy, PartialEq, Eq, Structural)]
pub enum PrattRhs {
    /// It ends the expression.
    End,
    /// A postfix operator at the power.
    Postfix(u32),
    /// An infix operator at the power.
    Infix(PrattAssoc, u32),
    /// An operand where an operator belongs, at the power juxtaposition would bind.
    Adjacent(u32),
}

/// The lowest power an operator must have to continue the expression being parsed.
#[derive(Debug, Clone, Copy, PartialEq, Eq, Structural)]
pub enum PrattFloor {
    /// At least this power.
    Inclusive(u32),
    /// More than this power.
    Exclusive(u32),
}

impl PrattFloor {
    /// Whether an operator of power `p` clears the floor.
    pub open spec fn spec_admits(self, p: u32) -> bool {
        match self {
            PrattFloor::Inclusive(f) => p >= f,
            PrattFloor::Exclusive(f) => p > f,
        }
    }

    /// Whether an operator of power `p` clears the floor.
    pub fn admits(&self, p: u32) -> (r: bool)
        ensures
            r == self.spec_admits(p),
    {
        match self {
            PrattFloor::Inclusive(f) => p >= *f,
            PrattFloor::Exclusive(f) => p > *f,
        }
    }
}

/// A continuation the loop consumes.
#[derive(Debug, Clone, Copy, PartialEq, Eq, Structural)]
pub enum TokRhs {
    Postfix,
    Infix(PrattAssoc, u32),
}

/// Why a continuation was left where it is.
#[derive(Debug, Clone, Copy, PartialEq, Eq, Structural)]
pub enum Parked {
    /// It does not continue this expression.
    Decline,
    /// It would chain two non-associative operators of the same power.
    NonAssoc,
    /// An operand where an operator belongs.
    Adjacent,
}

/// What the loop does with a continuation token, from its classification, the floor and the
/// power of the previous non-associative operator.
pub open spec fn decision(c: Option<PrattRhs>, floor: PrattFloor, prev: Option<u32>) -> Result<TokRhs, Parked> {
    match c {
        None => Err(Parked::Decline),
        Some(PrattRhs::End) => Err(Parked::Decline),
        Some(PrattRhs::Postfix(p)) => if floor.spec_admits(p) { Ok(TokRhs::Postfix) } else { Err(Parked::Decline) },
        Some(PrattRhs::Infix(a, p)) => if !floor.spec_admits(p) {
            Err(Parked::Decline)
        } else if prev == Some(p) {
            Err(Parked::NonAssoc)
        } else {
            Ok(TokRhs::Infix(a, p))
        },
        Some(PrattRhs::Adjacent(p)) => if !floor.spec_admits(p) {
            Err(Parked::Decline)
        } else if prev == Some(p) {
            Err(Parked::NonAssoc)
        } else {
            Err(Parked::Adjacent)
        },
    }
}

/// The grammar a Pratt parse runs: the two classifications and the three folds.
pub struct PrattGrammar<L, R, P, I, Q> {
    /// How a token starts an expression, if it does.
    pub lhs: L,
    /// How a token continues an expression, if it does.
    pub rhs: R,
    /// Folds a prefix operator and its operand.
    pub fold_prefix: P,
    /// Folds a left operand, a right operand, and the infix operator between them.
    pub fold_infix: I,
    /// Folds an operand and the postfix operator after it.
    pub fold_postfix: Q,
}

/// Whether every part of grammar `g` can be called on anything.
pub open spec fn grammar_callable<E, L, R, P, I, Q>(g: PrattGrammar<L, R, P, I, Q>) -> bool
    where
        L: Fn(&Token) -> Option<PrattLhs>,
        R: Fn(&Token) -> Option<PrattRhs>,
        P: Fn(Token, Token) -> Result<Token, E>,
        I: Fn(Token, Token, PrattAssoc, Token) -> Result<Token, E>,
        Q: Fn(Token, Token) -> Result<Token, E>,
{
    &&& forall|t: &Token| call_requires(g.lhs, (t,))
    &&& forall|t: &Token| call_requires(g.rhs, (t,))
    &&& forall|a: Token, b: Token| call_requires(g.fold_prefix, (a, b))
    &&& forall|a: Token, b: Token, k: PrattAssoc, o: Token| call_requires(g.fold_infix, (a, b, k, o))
    &&& forall|a: Token, b: Token| call_requires(g.fold_postfix, (a, b))
}

/// What a Pratt parse keeps of its input: a well-formed handle moved forward, with its
/// recursion budget as it found it whenever that budget has a ceiling it respects.
pub open spec fn pratt_keeps<'a, E>(before: InputRef<'a, E>, after: InputRef<'a, E>) -> bool {
    &&& after.wf()
    &&& after.open_points() == before.open_points()
    &&& before.model().advanced_to(after.model())
    &&& balanced_budget(before.model().recursion) ==> after.model().recursion == before.model().recursion
}

/// Whether a start classified as `o` begins an expression under `floor`: an operand always does,
/// a prefix operator when the floor admits its power, nothing otherwise.
pub open spec fn lhs_admitted(o: Option<PrattLhs>, floor: PrattFloor) -> bool {
    match o {
        Some(PrattLhs::Operand) => true,
        Some(PrattLhs::Prefix(p)) => floor.spec_admits(p),
        None => false,
    }
}

/// Whether no expression starts at the head of `m`: the head is a token `lhs` classifies as
/// starting nothing, or there is no head at a genuine end of input.
pub open spec fn no_expression_at<E, L: Fn(&Token) -> Option<PrattLhs>>(m: InputModel<E>, lhs: L, floor: PrattFloor) -> bool {
    match m.pull().0 {
        Pull::Yield(t) => exists|o: Option<PrattLhs>| #[trigger] call_ensures(lhs, (&t,), o) && !lhs_admitted(o, floor),
        Pull::Halt => m.meets_eof(),
        Pull::Trip(..) => false,
    }
}

/// Whether an expression starts at the head of `m`: the head is a token `lhs` classifies as an
/// operand or a prefix operator.
pub open spec fn expression_starts_at<E, L: Fn(&Token) -> Option<PrattLhs>>(m: InputModel<E>, lhs: L, floor: PrattFloor) -> bool {
    &&& m.pull().0 is Yield
    &&& exists|l: PrattLhs| call_ensures(lhs, (&m.pull().0->Yield_0,), Some(l)) && lhs_admitted(Some(l), floor)
}

/// Whether `t` is what one of `g`'s folds can return.
pub open spec fn folded_by<E, L, R, P, I, Q>(g: PrattGrammar<L, R, P, I, Q>, t: Token) -> bool
    where
        L: Fn(&Token) -> Option<PrattLhs>,
        R: Fn(&Token) -> Option<PrattRhs>,
        P: Fn(Token, Token) -> Result<Token, E>,
        I: Fn(Token, Token, PrattAssoc, Token) -> Result<Token, E>,
        Q: Fn(Token, Token) -> Result<Token, E>,
{
    ||| exists|a: Token, b: Token| call_ensures(g.fold_prefix, (a, b), Ok::<Token, E>(t))
    ||| exists|a: Token, b: Token, k: PrattAssoc, o: Token| call_ensures(g.fold_infix, (a, b, k, o), Ok::<Token, E>(t))
    ||| exists|a: Token, b: Token| call_ensures(g.fold_postfix, (a, b), Ok::<Token, E>(t))
}

/// Whether `t` is what a parse from `m` under `g` can hand back: the head token itself, or the
/// result of a fold.
pub open spec fn expression_result<E, L, R, P, I, Q>(m: InputModel<E>, g: PrattGrammar<L, R, P, I, Q>, t: Token) -> bool
    where
        L: Fn(&Token) -> Option<PrattLhs>,
        R: Fn(&Token) -> Option<PrattRhs>,
        P: Fn(Token, Token) -> Result<Token, E>,
        I: Fn(Token, Token, PrattAssoc, Token) -> Result<Token, E>,
        Q: Fn(Token, Token) -> Result<Token, E>,
{
    m.pull().0 == Pull::Yield(t) || folded_by(g, t)
}

/// Whether the head of `m` surely starts nothing: every answer `lhs` can give on the head token is
/// `None`, or there is no head at a genuine end of input.
pub open spec fn starts_nothing<E, L: Fn(&Token) -> Option<PrattLhs>>(m: InputModel<E>, lhs: L, floor: PrattFloor) -> bool {
    match m.pull().0 {
        Pull::Yield(t) => forall|o: Option<PrattLhs>| #[trigger] call_ensures(lhs, (&t,), o) ==> !lhs_admitted(o, floor),
        Pull::Halt => m.meets_eof(),
        Pull::Trip(..) => false,
    }
}

/// Whether nothing continues an expression at the head of `m`: every answer `rhs` can give on
/// the head token is `None` or `End`, or there is no head at a genuine end of input.
pub open spec fn ends_here<E, R: Fn(&Token) -> Option<PrattRhs>>(m: InputModel<E>, rhs: R) -> bool {
    match m.pull().0 {
        Pull::Yield(t) => forall|o: Option<PrattRhs>|
            #[trigger] call_ensures(rhs, (&t,), o) ==> (o is None || o == Some(PrattRhs::End)),
        Pull::Halt => m.meets_eof(),
        Pull::Trip(..) => false,
    }
}

/// Whether the expression at the head of `m` is a lone operand: the head token is surely an
/// operand, and nothing continues it after it.
pub open spec fn lone_operand<E, L, R, P, I, Q>(m: InputModel<E>, g: PrattGrammar<L, R, P, I, Q>) -> bool
    where
        L: Fn(&Token) -> Option<PrattLhs>,
        R: Fn(&Token) -> Option<PrattRhs>,
        P: Fn(Token, Token) -> Result<Token, E>,
        I: Fn(Token, Token, PrattAssoc, Token) -> Result<Token, E>,
        Q: Fn(Token, Token) -> Result<Token, E>,
{
    &&& m.pull().0 is Yield
    &&& forall|o: Option<PrattLhs>|
        #[trigger] call_ensures(g.lhs, (&m.pull().0->Yield_0,), o) ==> o == Some(PrattLhs::Operand)
    &&& ends_here(m.pull().1, g.rhs)
}

/// A recursion budget below its ceiling, with a ceiling below the counter's own.
pub open spec fn balanced_budget(r: crate::recursion::RecursionLimiter) -> bool {
    r.spec_depth() <= r.spec_limitation() < usize::MAX
}

/// The answer `lhs` gives on `t`, when it gives one answer.
pub open spec fn lhs_answer<L: Fn(&Token) -> Option<PrattLhs>>(lhs: L, t: Token) -> Option<PrattLhs> {
    choose|o: Option<PrattLhs>| call_ensures(lhs, (&t,), o)
}

/// The answer `rhs` gives on `t`, when it gives one answer.
pub open spec fn rhs_answer<R: Fn(&Token) -> Option<PrattRhs>>(rhs: R, t: Token) -> Option<PrattRhs> {
    choose|o: Option<PrattRhs>| call_ensures(rhs, (&t,), o)
}

/// What the prefix fold makes of an operator and its operand, when it always succeeds.
pub open spec fn prefix_fold<E, P: Fn(Token, Token) -> Result<Token, E>>(p: P, op: Token, operand: Token) -> Token {
    choose|x: Token| call_ensures(p, (op, operand), Ok::<Token, E>(x))
}

/// What the infix fold makes of two operands, the associativity and the operator, when it always
/// succeeds.
pub open spec fn infix_fold<E, I: Fn(Token, Token, PrattAssoc, Token) -> Result<Token, E>>(
    i: I,
    l: Token,
    r: Token,
    a: PrattAssoc,
    op: Token,
) -> Token {
    choose|x: Token| call_ensures(i, (l, r, a, op), Ok::<Token, E>(x))
}

/// What the postfix fold makes of an operand and its operator, when it always succeeds.
pub open spec fn postfix_fold<E, Q: Fn(Token, Token) -> Result<Token, E>>(q: Q, operand: Token, op: Token) -> Token {
    choose|x: Token| call_ensures(q, (operand, op), Ok::<Token, E>(x))
}

/// Whether grammar `g` decides: each classification gives one answer per token, each fold always
/// succeeds with one result, and the reports the parse builds convert into the error type by
/// their stated conversions.
pub open spec fn grammar_decides<E, L, R, P, I, Q>(g: PrattGrammar<L, R, P, I, Q>) -> bool
    where
        E: From<TokenLimitExceeded> + From<UnexpectedEot> + From<RecursionLimitReached>
            + From<NonAssociativeChain> + From<UnexpectedEoLhs> + From<UnexpectedEoRhs>,
        L: Fn(&Token) -> Option<PrattLhs>,
        R: Fn(&Token) -> Option<PrattRhs>,
        P: Fn(Token, Token) -> Result<Token, E>,
        I: Fn(Token, Token, PrattAssoc, Token) -> Result<Token, E>,
        Q: Fn(Token, Token) -> Result<Token, E>,
{
    &&& forall|t: Token, o: Option<PrattLhs>| #[trigger] call_ensures(g.lhs, (&t,), o) ==> o == lhs_answer(g.lhs, t)
    &&& forall|t: Token, o: Option<PrattRhs>| #[trigger] call_ensures(g.rhs, (&t,), o) ==> o == rhs_answer(g.rhs, t)
    &&& forall|a: Token, b: Token, o: Result<Token, E>|
        #[trigger] call_ensures(g.fold_prefix, (a, b), o) ==> o == Ok::<Token, E>(prefix_fold(g.fold_prefix, a, b))
    &&& forall|a: Token, b: Token, k: PrattAssoc, op: Token, o: Result<Token, E>|
        #[trigger] call_ensures(g.fold_infix, (a, b, k, op), o) ==> o == Ok::<Token, E>(
            infix_fold(g.fold_infix, a, b, k, op),
        )
    &&& forall|a: Token, b: Token, o: Result<Token, E>|
        #[trigger] call_ensures(g.fold_postfix, (a, b), o) ==> o == Ok::<Token, E>(postfix_fold(g.fold_postfix, a, b))
    &&& <E as FromSpec<TokenLimitExceeded>>::obeys_from_spec()
    &&& <E as FromSpec<UnexpectedEot>>::obeys_from_spec()
    &&& <E as FromSpec<RecursionLimitReached>>::obeys_from_spec()
    &&& <E as FromSpec<NonAssociativeChain>>::obeys_from_spec()
    &&& <E as FromSpec<UnexpectedEoLhs>>::obeys_from_spec()
    &&& <E as FromSpec<UnexpectedEoRhs>>::obeys_from_spec()
}

/// A conditional consume of the head of `m` that classifies the head as `c`: what it answers and
/// the input after it.
pub open spec fn expect_spec<E, X, Y>(m: InputModel<E>, c: Result<X, Y>) -> (Result<Expect<X, Y>, E>, InputModel<E>)
    where E: From<TokenLimitExceeded> + From<UnexpectedEot>
{
    let eot = <E as FromSpec<UnexpectedEot>>::from_spec(UnexpectedEot { offset: m.span.end, terminal: true });
    match m.pull().0 {
        Pull::Yield(t) => match c {
            Ok(x) => (Ok(Expect::Taken(x, t)), m.pull().1),
            Err(y) => (Ok(Expect::Left(y)), m.put_back()),
        },
        Pull::Halt => if m.meets_eof() {
            (Ok(Expect::Nothing), m)
        } else {
            (Err(eot), m.pull().1)
        },
        Pull::Trip(t, x) => {
            let err = <E as FromSpec<TokenLimitExceeded>>::from_spec(x);
            (
                Err(if m.emitter.mode == EmitterMode::Fatal { err } else { eot }),
                m.pull().1.offered(Emission::Error { channel: Channel::Lexer, span: t.span, error: err }),
            )
        },
    }
}

/// How the head of `m` starts an expression, as the conditional consume of a frame's start sees it.
pub open spec fn start_class<E, L: Fn(&Token) -> Option<PrattLhs>>(m: InputModel<E>, lhs: L, floor: PrattFloor) -> Result<PrattLhs, ()> {
    match lhs_answer(lhs, m.pull().0->Yield_0) {
        Some(l) => if lhs_admitted(Some(l), floor) { Ok(l) } else { Err(()) },
        None => Err(()),
    }
}

/// A report of a missing operand at the committed end of `m`, offered to its emitter: the answer
/// (the report under a fatal emitter, else `done`) and the input after it.
pub open spec fn missing_operand<E>(m: InputModel<E>, channel: Channel, report: E, done: Token) -> (
    Result<Option<Token>, E>,
    InputModel<E>,
) {
    let at = m.span.end;
    (
        if m.emitter.mode == EmitterMode::Fatal { Err(report) } else { Ok(Some(done)) },
        m.offered(Emission::Error { channel, span: SimpleSpan { start: at, end: at }, error: report }),
    )
}

/// Whether `m2` lies strictly past `m` within the same source.
pub open spec fn moved_past<E>(m: InputModel<E>, m2: InputModel<E>) -> bool {
    &&& m2.src == m.src
    &&& m.span.end < m2.span.end <= m.src.len()
}

/// A Pratt parse of one expression from `m` whose operators clear `floor`, one recursion level
/// deeper: what it answers and the input after it.
pub open spec fn pratt_in_spec<E, L, R, P, I, Q>(m: InputModel<E>, g: PrattGrammar<L, R, P, I, Q>, floor: PrattFloor) -> (
    Result<Option<Token>, E>,
    InputModel<E>,
)
    where
        E: From<TokenLimitExceeded> + From<UnexpectedEot> + From<RecursionLimitReached>
            + From<NonAssociativeChain> + From<UnexpectedEoLhs> + From<UnexpectedEoRhs>,
        L: Fn(&Token) -> Option<PrattLhs>,
        R: Fn(&Token) -> Option<PrattRhs>,
        P: Fn(Token, Token) -> Result<Token, E>,
        I: Fn(Token, Token, PrattAssoc, Token) -> Result<Token, E>,
        Q: Fn(Token, Token) -> Result<Token, E>,
    decreases m.src.len() - m.span.end, 2nat,
{
    let (up, m1) = raised_level(m);
    if !up {
        (Err(<E as FromSpec<RecursionLimitReached>>::from_spec(limit_reached(m))), m1)
    } else {
        let (r, m2) = pratt_frame_spec(m1, g, floor);
        (r, InputModel { recursion: m2.recursion.lowered(), ..m2 })
    }
}

/// The body of one expression from `m`: its start, then the continuations that clear `floor`.
pub open spec fn pratt_frame_spec<E, L, R, P, I, Q>(m: InputModel<E>, g: PrattGrammar<L, R, P, I, Q>, floor: PrattFloor) -> (
    Result<Option<Token>, E>,
    InputModel<E>,
)
    where
        E: From<TokenLimitExceeded> + From<UnexpectedEot> + From<RecursionLimitReached>
            + From<NonAssociativeChain> + From<UnexpectedEoLhs> + From<UnexpectedEoRhs>,
        L: Fn(&Token) -> Option<PrattLhs>,
        R: Fn(&Token) -> Option<PrattRhs>,
        P: Fn(Token, Token) -> Result<Token, E>,
        I: Fn(Token, Token, PrattAssoc, Token) -> Result<Token, E>,
        Q: Fn(Token, Token) -> Result<Token, E>,
    decreases m.src.len() - m.span.end, 1nat,
{
    let (first, m1) = expect_spec(m, start_class(m, g.lhs, floor));
    match first {
        Err(e) => (Err(e), m1),
        Ok(Expect::Taken(l, tok)) => if !moved_past(m, m1) {
            (Ok(None), m1)
        } else {
            match l {
                PrattLhs::Operand => pratt_loop_spec(m1, g, floor, tok, None),
                PrattLhs::Prefix(power) => {
                    let (operand, m2) = pratt_in_spec(m1, g, PrattFloor::Inclusive(power));
                    match operand {
                        Ok(Some(o)) => if m2.src == m1.src && m1.span.end <= m2.span.end <= m1.src.len() {
                            pratt_loop_spec(m2, g, floor, prefix_fold(g.fold_prefix, tok, o), None)
                        } else {
                            (Ok(None), m2)
                        },
                        Ok(None) => missing_operand(
                            m2,
                            Channel::UnexpectedEndOfLhs,
                            <E as FromSpec<UnexpectedEoLhs>>::from_spec(UnexpectedEoLhs { offset: m2.span.end }),
                            tok,
                        ),
                        Err(e) => (Err(e), m2),
                    }
                },
            }
        },
        _ => (Ok(None), m1),
    }
}

/// The continuations of an expression whose left side so far is `lhs`, from `m`, under `floor`;
/// `prev` is the power of the non-associative operator just folded, if one was.
pub open spec fn pratt_loop_spec<E, L, R, P, I, Q>(
    m: InputModel<E>,
    g: PrattGrammar<L, R, P, I, Q>,
    floor: PrattFloor,
    lhs: Token,
    prev: Option<u32>,
) -> (Result<Option<Token>, E>, InputModel<E>)
    where
        E: From<TokenLimitExceeded> + From<UnexpectedEot> + From<RecursionLimitReached>
            + From<NonAssociativeChain> + From<UnexpectedEoLhs> + From<UnexpectedEoRhs>,
        L: Fn(&Token) -> Option<PrattLhs>,
        R: Fn(&Token) -> Option<PrattRhs>,
        P: Fn(Token, Token) -> Result<Token, E>,
        I: Fn(Token, Token, PrattAssoc, Token) -> Result<Token, E>,
        Q: Fn(Token, Token) -> Result<Token, E>,
    decreases m.src.len() - m.span.end, 0nat,
{
    let (step, m1) = expect_spec(m, decision(rhs_answer(g.rhs, m.pull().0->Yield_0), floor, prev));
    match step {
        Ok(Expect::Taken(TokRhs::Postfix, op)) => if moved_past(m, m1) {
            pratt_loop_spec(m1, g, floor, postfix_fold(g.fold_postfix, lhs, op), prev)
        } else {
            (Ok(Some(lhs)), m1)
        },
        Ok(Expect::Taken(TokRhs::Infix(assoc, power), op)) => if !moved_past(m, m1) {
            (Ok(Some(lhs)), m1)
        } else {
            let next_floor = match assoc {
                PrattAssoc::Right => PrattFloor::Inclusive(power),
                _ => PrattFloor::Exclusive(power),
            };
            let (rhs, m2) = pratt_in_spec(m1, g, next_floor);
            match rhs {
                Ok(Some(o)) => if m2.src == m1.src && m1.span.end <= m2.span.end <= m1.src.len() {
                    pratt_loop_spec(
                        m2,
                        g,
                        floor,
                        infix_fold(g.fold_infix, lhs, o, assoc, op),
                        match assoc {
                            PrattAssoc::Neither => Some(power),
                            _ => None,
                        },
                    )
                } else {
                    (Ok(Some(lhs)), m2)
                },
                Ok(None) => missing_operand(
                    m2,
                    Channel::UnexpectedEndOfRhs,
                    <E as FromSpec<UnexpectedEoRhs>>::from_spec(UnexpectedEoRhs { offset: m2.span.end }),
                    lhs,
                ),
                Err(e) => (Err(e), m2),
            }
        },
        Ok(Expect::Left(Parked::NonAssoc)) => (
            Err(<E as FromSpec<NonAssociativeChain>>::from_spec(NonAssociativeChain { offset: m1.span.end })),
            m1,
        ),
        Ok(Expect::Left(Parked::Adjacent)) => missing_operand(
            m1,
            Channel::UnexpectedEndOfRhs,
            <E as FromSpec<UnexpectedEoRhs>>::from_spec(UnexpectedEoRhs { offset: m1.span.end }),
            lhs,
        ),
        Err(e) => (Err(e), m1),
        _ => (Ok(Some(lhs)), m1),
    }
}

/// A conditional consume answers as its spec says once its classifier gives one answer on the
/// head.
proof fn lemma_expect_exact<E, X, Y, F: Fn(&Token) -> Result<X, Y>>(
    m: InputModel<E>,
    fin: InputModel<E>,
    r: Result<Expect<X, Y>, E>,
    err: E,
    eot: E,
    f: F,
    c: Result<X, Y>,
)
    where E: From<TokenLimitExceeded> + From<UnexpectedEot>
    requires
        expect_answer(m, fin, r, err, eot, f),
        <E as FromSpec<TokenLimitExceeded>>::obeys_from_spec(),
        <E as FromSpec<UnexpectedEot>>::obeys_from_spec(),
        m.pull().0 is Yield ==> forall|o: Result<X, Y>|
            #[trigger] call_ensures(f, (&m.pull().0->Yield_0,), o) ==> o == c,
    ensures
        (r, fin) == expect_spec(m, c),
{
}


/// An inclusive floor admits the powers at or above it; an exclusive one only those above it.
pub proof fn law_a_floor_admits_the_powers_above_it(f: u32, p: u32)
    ensures
        PrattFloor::Inclusive(f).spec_admits(p) <==> p >= f,
        PrattFloor::Exclusive(f).spec_admits(p) <==> p > f,
{
}

/// A postfix operator whose power does not clear the floor ends the expression: the parse answers
/// the left side built so far, and the operator stays at the front of the stream, unconsumed.
pub proof fn law_a_postfix_below_the_floor_ends_the_expression<E, L, R, P, I, Q>(
    m: InputModel<E>,
    g: PrattGrammar<L, R, P, I, Q>,
    floor: PrattFloor,
    lhs: Token,
    prev: Option<u32>,
    power: u32,
)
    where
        E: From<TokenLimitExceeded> + From<UnexpectedEot> + From<RecursionLimitReached>
            + From<NonAssociativeChain> + From<UnexpectedEoLhs> + From<UnexpectedEoRhs>,
        L: Fn(&Token) -> Option<PrattLhs>,
        R: Fn(&Token) -> Option<PrattRhs>,
        P: Fn(Token, Token) -> Result<Token, E>,
        I: Fn(Token, Token, PrattAssoc, Token) -> Result<Token, E>,
        Q: Fn(Token, Token) -> Result<Token, E>,
    requires
        m.pull().0 is Yield,
        rhs_answer(g.rhs, m.pull().0->Yield_0) == Some(PrattRhs::Postfix(power)),
        !floor.spec_admits(power),
    ensures
        pratt_loop_spec(m, g, floor, lhs, prev) == (Ok::<Option<Token>, E>(Some(lhs)), m.put_back()),
        m.put_back().span == m.span,
{
}

/// The loop takes only operators that clear the floor: a continuation it consumes is a postfix or
/// infix operator whose power the floor admits, and an infix operator of the power of the
/// non-associative operator just folded is never taken. Everything else is left at the front.
pub proof fn law_only_operators_clearing_the_floor_are_taken(c: Option<PrattRhs>, floor: PrattFloor, prev: Option<u32>)
    ensures
        decision(c, floor, prev) matches Ok(TokRhs::Postfix) ==> (c matches Some(PrattRhs::Postfix(p))
            && (match floor {
            PrattFloor::Inclusive(f) => p >= f,
            PrattFloor::Exclusive(f) => p > f,
        })),
        decision(c, floor, prev) matches Ok(TokRhs::Infix(a, p)) ==> (c == Some(PrattRhs::Infix(a, p)) && prev != Some(p)
            && (match floor {
            PrattFloor::Inclusive(f) => p >= f,
            PrattFloor::Exclusive(f) => p > f,
        })),
        (c is None || c == Some(PrattRhs::End)) ==> decision(c, floor, prev) == Err::<TokRhs, Parked>(Parked::Decline),
        (c matches Some(PrattRhs::Postfix(p)) && !(match floor {
            PrattFloor::Inclusive(f) => p >= f,
            PrattFloor::Exclusive(f) => p > f,
        })) ==> decision(c, floor, prev) == Err::<TokRhs, Parked>(Parked::Decline),
{
}

/// A prefix operator whose power does not clear the floor starts nothing here: the parse answers
/// no expression, and the operator stays at the front of the stream, unconsumed.
pub proof fn law_a_prefix_below_the_floor_is_left<E, L, R, P, I, Q>(
    m: InputModel<E>,
    g: PrattGrammar<L, R, P, I, Q>,
    floor: PrattFloor,
    power: u32,
)
    where
        E: From<TokenLimitExceeded> + From<UnexpectedEot> + From<RecursionLimitReached>
            + From<NonAssociativeChain> + From<UnexpectedEoLhs> + From<UnexpectedEoRhs>,
        L: Fn(&Token) -> Option<PrattLhs>,
        R: Fn(&Token) -> Option<PrattRhs>,
        P: Fn(Token, Token) -> Result<Token, E>,
        I: Fn(Token, Token, PrattAssoc, Token) -> Result<Token, E>,
        Q: Fn(Token, Token) -> Result<Token, E>,
    requires
        m.pull().0 is Yield,
        lhs_answer(g.lhs, m.pull().0->Yield_0) == Some(PrattLhs::Prefix(power)),
        !floor.spec_admits(power),
    ensures
        pratt_frame_spec(m, g, floor) == (Ok::<Option<Token>, E>(None), m.put_back()),
        m.put_back().span == m.span,
{
}

/// An operator whose power does not clear the floor ends the expression: the parse answers the
/// left side built so far, and the operator stays at the front of the stream, unconsumed.
pub proof fn law_an_operator_below_the_floor_ends_the_expression<E, L, R, P, I, Q>(
    m: InputModel<E>,
    g: PrattGrammar<L, R, P, I, Q>,
    floor: PrattFloor,
    lhs: Token,
    prev: Option<u32>,
    assoc: PrattAssoc,
    power: u32,
)
    where
        E: From<TokenLimitExceeded> + From<UnexpectedEot> + From<RecursionLimitReached>
            + From<NonAssociativeChain> + From<UnexpectedEoLhs> + From<UnexpectedEoRhs>,
        L: Fn(&Token) -> Option<PrattLhs>,
        R: Fn(&Token) -> Option<PrattRhs>,
        P: Fn(Token, Token) -> Result<Token, E>,
        I: Fn(Token, Token, PrattAssoc, Token) -> Result<Token, E>,
        Q: Fn(Token, Token) -> Result<Token, E>,
    requires
        m.pull().0 is Yield,
        rhs_answer(g.rhs, m.pull().0->Yield_0) == Some(PrattRhs::Infix(assoc, power)),
        !floor.spec_admits(power),
    ensures
        pratt_loop_spec(m, g, floor, lhs, prev) == (Ok::<Option<Token>, E>(Some(lhs)), m.put_back()),
        m.put_back().span == m.span,
{
}

/// A second non-associative operator of the same power, where the floor admits it, is refused:
/// the error names the committed end, and the operator stays at the front of the stream.
pub proof fn law_a_non_associative_chain_is_refused<E, L, R, P, I, Q>(
    m: InputModel<E>,
    g: PrattGrammar<L, R, P, I, Q>,
    floor: PrattFloor,
    lhs: Token,
    power: u32,
)
    where
        E: From<TokenLimitExceeded> + From<UnexpectedEot> + From<RecursionLimitReached>
            + From<NonAssociativeChain> + From<UnexpectedEoLhs> + From<UnexpectedEoRhs>,
        L: Fn(&Token) -> Option<PrattLhs>,
        R: Fn(&Token) -> Option<PrattRhs>,
        P: Fn(Token, Token) -> Result<Token, E>,
        I: Fn(Token, Token, PrattAssoc, Token) -> Result<Token, E>,
        Q: Fn(Token, Token) -> Result<Token, E>,
    requires
        m.pull().0 is Yield,
        rhs_answer(g.rhs, m.pull().0->Yield_0) == Some(PrattRhs::Infix(PrattAssoc::Neither, power)),
        floor.spec_admits(power),
    ensures
        pratt_loop_spec(m, g, floor, lhs, Some(power)) == (
            Err::<Option<Token>, E>(<E as FromSpec<NonAssociativeChain>>::from_spec(
                NonAssociativeChain { offset: m.span.end },
            )),
            m.put_back(),
        ),
        m.put_back().span == m.span,
{
}

impl<'a, E> InputRef<'a, E> {
    /// Parses one expression with every operator admitted.
    pub fn pratt<L, R, P, I, Q>(&mut self, g: &PrattGrammar<L, R, P, I, Q>) -> (r: Result<Option<Token>, E>)
        where
            E: From<TokenLimitExceeded> + From<UnexpectedEot> + From<RecursionLimitReached>
                + From<NonAssociativeChain> + From<UnexpectedEoLhs> + From<UnexpectedEoRhs>,
            L: Fn(&Token) -> Option<PrattLhs>,
            R: Fn(&Token) -> Option<PrattRhs>,
            P: Fn(Token, Token) -> Result<Token, E>,
            I: Fn(Token, Token, PrattAssoc, Token) -> Result<Token, E>,
            Q: Fn(Token, Token) -> Result<Token, E>,
        requires
            old(self).wf(),
            grammar_callable(*g),
        ensures
            pratt_keeps(*old(self), *final(self)),
            r matches Ok(None) ==> final(self).model().span == old(self).model().span
                && no_expression_at(old(self).model(), g.lhs, PrattFloor::Inclusive(0)),
            r matches Ok(Some(_)) ==> final(self).model().span.end > old(self).model().span.end
                && expression_starts_at(old(self).model(), g.lhs, PrattFloor::Inclusive(0)),
            r matches Ok(Some(t)) ==> expression_result(old(self).model(), *g, t),
            raised_level(old(self).model()).0 && starts_nothing(old(self).model(), g.lhs, PrattFloor::Inclusive(0))
                ==> r == Ok::<Option<Token>, E>(None),
            raised_level(old(self).model()).0 && lone_operand(old(self).model(), *g)
                ==> r == Ok::<Option<Token>, E>(Some(old(self).model().pull().0->Yield_0)),
            !raised_level(old(self).model()).0 ==> (r matches Err(e) && final(self).model()
                == raised_level(old(self).model()).1 && (<E as FromSpec<RecursionLimitReached>>::obeys_from_spec()
                ==> e == <E as FromSpec<RecursionLimitReached>>::from_spec(limit_reached(old(self).model())))),
            grammar_decides(*g) ==> (r, final(self).model()) == pratt_in_spec(
                old(self).model(),
                *g,
                PrattFloor::Inclusive(0),
            ),
    {
        self.pratt_with_min_precedence(g, 0)
    }

    /// Parses one expression whose operators all bind at least at `min_precedence`.
    pub fn pratt_with_min_precedence<L, R, P, I, Q>(
        &mut self,
        g: &PrattGrammar<L, R, P, I, Q>,
        min_precedence: u32,
    ) -> (r: Result<Option<Token>, E>)
        where
            E: From<TokenLimitExceeded> + From<UnexpectedEot> + From<RecursionLimitReached>
                + From<NonAssociativeChain> + From<UnexpectedEoLhs> + From<UnexpectedEoRhs>,
            L: Fn(&Token) -> Option<PrattLhs>,
            R: Fn(&Token) -> Option<PrattRhs>,
            P: Fn(Token, Token) -> Result<Token, E>,
            I: Fn(Token, Token, PrattAssoc, Token) -> Result<Token, E>,
            Q: Fn(Token, Token) -> Result<Token, E>,
        requires
            old(self).wf(),
            grammar_callable(*g),
        ensures
            pratt_keeps(*old(self), *final(self)),
            r matches Ok(None) ==> final(self).model().span == old(self).model().span
                && no_expression_at(old(self).model(), g.lhs, PrattFloor::Inclusive(min_precedence)),
            r matches Ok(Some(_)) ==> final(self).model().span.end > old(self).model().span.end
                && expression_starts_at(old(self).model(), g.lhs, PrattFloor::Inclusive(min_precedence)),
            r matches Ok(Some(t)) ==> expression_result(old(self).model(), *g, t),
            raised_level(old(self).model()).0 && starts_nothing(old(self).model(), g.lhs, PrattFloor::Inclusive(min_precedence))
                ==> r == Ok::<Option<Token>, E>(None),
            raised_level(old(self).model()).0 && lone_operand(old(self).model(), *g)
                ==> r == Ok::<Option<Token>, E>(Some(old(self).model().pull().0->Yield_0)),
            !raised_level(old(self).model()).0 ==> (r matches Err(e) && final(self).model()
                == raised_level(old(self).model()).1 && (<E as FromSpec<RecursionLimitReached>>::obeys_from_spec()
                ==> e == <E as FromSpec<RecursionLimitReached>>::from_spec(limit_reached(old(self).model())))),
            grammar_decides(*g) ==> (r, final(self).model()) == pratt_in_spec(
                old(self).model(),
                *g,
                PrattFloor::Inclusive(min_precedence),
            ),
    {
        self.pratt_in(PrattFloor::Inclusive(min_precedence), g)
    }

    /// One expression, one recursion level deeper.
    fn pratt_in<L, R, P, I, Q>(&mut self, floor: PrattFloor, g: &PrattGrammar<L, R, P, I, Q>) -> (r: Result<Option<Token>, E>)
        where
            E: From<TokenLimitExceeded> + From<UnexpectedEot> + From<RecursionLimitReached>
                + From<NonAssociativeChain> + From<UnexpectedEoLhs> + From<UnexpectedEoRhs>,
            L: Fn(&Token) -> Option<PrattLhs>,
            R: Fn(&Token) -> Option<PrattRhs>,
            P: Fn(Token, Token) -> Result<Token, E>,
            I: Fn(Token, Token, PrattAssoc, Token) -> Result<Token, E>,
            Q: Fn(Token, Token) -> Result<Token, E>,
        requires
            old(self).wf(),
            grammar_callable(*g),
        ensures
            pratt_keeps(*old(self), *final(self)),
            r matches Ok(None) ==> final(self).model().span == old(self).model().span
                && no_expression_at(old(self).model(), g.lhs, floor),
            r matches Ok(Some(_)) ==> final(self).model().span.end > old(self).model().span.end
                && expression_starts_at(old(self).model(), g.lhs, floor),
            r matches Ok(Some(t)) ==> expression_result(old(self).model(), *g, t),
            raised_level(old(self).model()).0 && starts_nothing(old(self).model(), g.lhs, floor)
                ==> r == Ok::<Option<Token>, E>(None),
            raised_level(old(self).model()).0 && lone_operand(old(self).model(), *g)
                ==> r == Ok::<Option<Token>, E>(Some(old(self).model().pull().0->Yield_0)),
            !raised_level(old(self).model()).0 ==> (r matches Err(e) && final(self).model()
                == raised_level(old(self).model()).1 && (<E as FromSpec<RecursionLimitReached>>::obeys_from_spec()
                ==> e == <E as FromSpec<RecursionLimitReached>>::from_spec(limit_reached(old(self).model())))),
            grammar_decides(*g) ==> (r, final(self).model()) == pratt_in_spec(old(self).model(), *g, floor),
        decreases old(self).model().src.len() - old(self).model().span.end, 1nat,
    {
        proof {
            old(self).model().recursion.lemma_levels();
            if balanced_budget(old(self).model().recursion) {
                old(self).model().recursion.law_raise_then_lower();
            }
        }
        match self.descend() {
            Ok(d) => {
                let r = d.input.pratt_frame(floor, g);
                d.ascend();
                r
            },
            Err(e) => Err(e),
        }
    }

    /// The body of one expression: its start, then continuations while they clear the floor.
    fn pratt_frame<L, R, P, I, Q>(&mut self, floor: PrattFloor, g: &PrattGrammar<L, R, P, I, Q>) -> (r: Result<Option<Token>, E>)
        where
            E: From<TokenLimitExceeded> + From<UnexpectedEot> + From<RecursionLimitReached>
                + From<NonAssociativeChain> + From<UnexpectedEoLhs> + From<UnexpectedEoRhs>,
            L: Fn(&Token) -> Option<PrattLhs>,
            R: Fn(&Token) -> Option<PrattRhs>,
            P: Fn(Token, Token) -> Result<Token, E>,
            I: Fn(Token, Token, PrattAssoc, Token) -> Result<Token, E>,
            Q: Fn(Token, Token) -> Result<Token, E>,
        requires
            old(self).wf(),
            grammar_callable(*g),
        ensures
            final(self).wf(),
            final(self).open_points() == old(self).open_points(),
            old(self).model().advanced_to(final(self).model()),
            old(self).model().recursion.spec_depth() <= old(self).model().recursion.spec_limitation() < usize::MAX
                ==> final(self).model().recursion == old(self).model().recursion,
            r matches Ok(None) ==> final(self).model().span == old(self).model().span
                && no_expression_at(old(self).model(), g.lhs, floor),
            r matches Ok(Some(_)) ==> final(self).model().span.end > old(self).model().span.end
                && expression_starts_at(old(self).model(), g.lhs, floor),
            r matches Ok(Some(t)) ==> expression_result(old(self).model(), *g, t),
            starts_nothing(old(self).model(), g.lhs, floor) ==> r == Ok::<Option<Token>, E>(None),
            lone_operand(old(self).model(), *g)
                ==> r == Ok::<Option<Token>, E>(Some(old(self).model().pull().0->Yield_0)),
            grammar_decides(*g) ==> (r, final(self).model()) == pratt_frame_spec(old(self).model(), *g, floor),
        decreases old(self).model().src.len() - old(self).model().span.end, 0nat,
    {
        let ghost m0 = self.model();
        let lhs_of = &g.lhs;
        let start = |t: &Token| -> (r: Result<PrattLhs, ()>)
            requires
                call_requires(lhs_of, (t,)),
            ensures
                match r {
                    Ok(l) => call_ensures(lhs_of, (t,), Some(l)) && lhs_admitted(Some(l), floor),
                    Err(_) => exists|o: Option<PrattLhs>|
                        #![trigger call_ensures(lhs_of, (t,), o)]
                        call_ensures(lhs_of, (t,), o) && !lhs_admitted(o, floor),
                },
            {
                let c = lhs_of(t);
                proof {
                    assert(call_ensures(lhs_of, (t,), c));
                }
                match c {
                    Some(PrattLhs::Operand) => Ok(PrattLhs::Operand),
                    Some(PrattLhs::Prefix(p)) => {
                        if floor.admits(p) {
                            Ok(PrattLhs::Prefix(p))
                        } else {
                            Err(())
                        }
                    },
                    None => Err(()),
                }
            };
        let first = self.expect_map(&start);
        proof {
            crate::input::lemma_pull_advances(m0);
            if grammar_decides(*g) {
                let (err, eot): (E, E) = choose|err: E, eot: E| expect_answer(m0, self.model(), first, err, eot, start);
                if m0.pull().0 is Yield {
                    let t = m0.pull().0->Yield_0;
                    assert forall|o: Result<PrattLhs, ()>| #[trigger] call_ensures(start, (&t,), o) implies o == start_class(
                        m0,
                        g.lhs,
                        floor,
                    ) by {
                        match o {
                            Ok(l) => {
                                assert(call_ensures(lhs_of, (&t,), Some(l)));
                                assert(call_ensures(g.lhs, (&t,), Some(l)));
                                assert(lhs_answer(g.lhs, t) == Some(l));
                            },
                            Err(u) => {
                                let c = choose|c: Option<PrattLhs>| call_ensures(lhs_of, (&t,), c) && !lhs_admitted(c, floor);
                                assert(call_ensures(g.lhs, (&t,), c));
                                assert(lhs_answer(g.lhs, t) == c);
                                assert(u == ());
                            },
                        }
                    }
                }
                lemma_expect_exact(m0, self.model(), first, err, eot, start, start_class(m0, g.lhs, floor));
            }
        }
        let (l, tok) = match first {
            Ok(Expect::Taken(l, tok)) => (l, tok),
            Ok(_) => {
                return Ok(None);
            },
            Err(e) => {
                return Err(e);
            },
        };
        let mut lhs = match l {
            PrattLhs::Operand => tok,
            PrattLhs::Prefix(power) => {
                let operand = self.pratt_in(PrattFloor::Inclusive(power), g);
                match operand {
                    Ok(Some(operand)) => {
                        match (g.fold_prefix)(tok, operand) {
                            Ok(folded) => folded,
                            Err(e) => {
                                return Err(e);
                            },
                        }
                    },
                    Ok(None) => {
                        let at = self.offset();
                        let report = E::from(UnexpectedEoLhs { offset: at });
                        match self.emit_unexpected_end_of_lhs(Spanned { span: SimpleSpan { start: at, end: at }, data: report }) {
                            Ok(()) => {},
                            Err(e) => {
                                return Err(e);
                            },
                        }
                        return Ok(Some(tok));
                    },
                    Err(e) => {
                        return Err(e);
                    },
                }
            },
        };
        let mut prev_neither: Option<u32> = None;
        loop
            invariant_except_break
                lone_operand(m0, *g) ==> self.model() == m0.pull().1,
                grammar_decides(*g) ==> pratt_loop_spec(self.model(), *g, floor, lhs, prev_neither)
                    == pratt_frame_spec(m0, *g, floor),
            invariant
                self.wf(),
                self.open_points() == old(self).open_points(),
                m0 == old(self).model(),
                m0.advanced_to(self.model()),
                self.model().span.end > m0.span.end,
                expression_starts_at(m0, g.lhs, floor),
                expression_result(m0, *g, lhs),
                lone_operand(m0, *g) ==> lhs == m0.pull().0->Yield_0,
                m0.recursion.spec_depth() <= m0.recursion.spec_limitation() < usize::MAX
                    ==> self.model().recursion == m0.recursion,
                grammar_callable(*g),
            ensures
                grammar_decides(*g) ==> (Ok::<Option<Token>, E>(Some(lhs)), self.model()) == pratt_frame_spec(
                    m0,
                    *g,
                    floor,
                ),
            decreases self.model().src.len() - self.model().span.end,
        {
            let ghost mk = self.model();
            let ghost lhs0 = lhs;
            let ghost prev0 = prev_neither;
            let rhs_of = &g.rhs;
            let prev = prev_neither;
            let decide = |t: &Token| -> (r: Result<TokRhs, Parked>)
                requires
                    call_requires(rhs_of, (t,)),
                ensures
                    exists|c: Option<PrattRhs>| #![trigger call_ensures(rhs_of, (t,), c)] call_ensures(rhs_of, (t,), c) && r == decision(c, floor, prev),
                {
                    let c = rhs_of(t);
                    proof {
                        assert(call_ensures(rhs_of, (t,), c));
                    }
                    match c {
                        None => Err(Parked::Decline),
                        Some(PrattRhs::End) => Err(Parked::Decline),
                        Some(PrattRhs::Postfix(p)) => {
                            if floor.admits(p) {
                                Ok(TokRhs::Postfix)
                            } else {
                                Err(Parked::Decline)
                            }
                        },
                        Some(PrattRhs::Infix(a, p)) => {
                            if !floor.admits(p) {
                                Err(Parked::Decline)
                            } else if prev == Some(p) {
                                Err(Parked::NonAssoc)
                            } else {
                                Ok(TokRhs::Infix(a, p))
                            }
                        },
                        Some(PrattRhs::Adjacent(p)) => {
                            if !floor.admits(p) {
                                Err(Parked::Decline)
                            } else if prev == Some(p) {
                                Err(Parked::NonAssoc)
                            } else {
                                Err(Parked::Adjacent)
                            }
                        },
                    }
                };
            let step = self.expect_map(&decide);
            proof {
                crate::input::lemma_pull_advances(mk);
                if grammar_decides(*g) {
                    let (err, eot): (E, E) = choose|err: E, eot: E| expect_answer(mk, self.model(), step, err, eot, decide);
                    let cls = decision(rhs_answer(g.rhs, mk.pull().0->Yield_0), floor, prev);
                    if mk.pull().0 is Yield {
                        let t = mk.pull().0->Yield_0;
                        assert forall|o: Result<TokRhs, Parked>| #[trigger] call_ensures(decide, (&t,), o) implies o == cls by {
                            let c = choose|c: Option<PrattRhs>| call_ensures(rhs_of, (&t,), c) && o == decision(c, floor, prev);
                            assert(call_ensures(g.rhs, (&t,), c));
                        }
                    }
                    lemma_expect_exact(mk, self.model(), step, err, eot, decide, cls);
                }
            }
            match step {
                Ok(Expect::Taken(TokRhs::Postfix, op)) => {
                    match (g.fold_postfix)(lhs, op) {
                        Ok(folded) => {
                            lhs = folded;
                        },
                        Err(e) => {
                            return Err(e);
                        },
                    }
                },
                Ok(Expect::Taken(TokRhs::Infix(assoc, power), op)) => {
                    let next_floor = match assoc {
                        PrattAssoc::Right => PrattFloor::Inclusive(power),
                        _ => PrattFloor::Exclusive(power),
                    };
                    let rhs = self.pratt_in(next_floor, g);
                    match rhs {
                        Ok(Some(rhs)) => {
                            match (g.fold_infix)(lhs, rhs, assoc, op) {
                                Ok(folded) => {
                                    lhs = folded;
                                },
                                Err(e) => {
                                    return Err(e);
                                },
                            }
                            prev_neither = match assoc {
                                PrattAssoc::Neither => Some(power),
                                _ => None,
                            };
                        },
                        Ok(None) => {
                            let at = self.offset();
                            let report = E::from(UnexpectedEoRhs { offset: at });
                            match self.emit_unexpected_end_of_rhs(Spanned { span: SimpleSpan { start: at, end: at }, data: report }) {
                                Ok(()) => {},
                                Err(e) => {
                                    return Err(e);
                                },
                            }
                            return Ok(Some(lhs));
                        },
                        Err(e) => {
                            return Err(e);
                        },
                    }
                },
                Ok(Expect::Left(Parked::Decline)) => {
                    break;
                },
                Ok(Expect::Left(Parked::NonAssoc)) => {
                    let at = self.offset();
                    return Err(E::from(NonAssociativeChain { offset: at }));
                },
                Ok(Expect::Left(Parked::Adjacent)) => {
                    let at = self.offset();
                    let report = E::from(UnexpectedEoRhs { offset: at });
                    match self.emit_unexpected_end_of_rhs(Spanned { span: SimpleSpan { start: at, end: at }, data: report }) {
                        Ok(()) => {},
                        Err(e) => {
                            return Err(e);
                        },
                    }
                    return Ok(Some(lhs));
                },
                Ok(Expect::Nothing) => {
                    break;
                },
                Err(e) => {
                    return Err(e);
                },
            }
        }
        Ok(Some(lhs))
    }
}

} // verus!

use vstd::prelude::*;
use crate::token::{Token, SpecToken, tokens_view, token_eq};
use crate::grammar::vec_view;

verus! {

/// Why a token sequence is not a program (or not the construct asked for).
#[derive(Debug, PartialEq, Eq, Structural, Clone, Copy)]
pub enum ParseError {
    /// The tokens ran out before the construct was complete.
    UnexpectedEnd,
    /// The token at this position cannot stand here.
    UnexpectedToken(usize),
    /// The bit vector width given at this position is 0.
    BitWidthZero(usize),
    /// The bit vector width given at this position is above 32.
    BitWidthTooLarge(usize),
    /// An initial value of the declaration that starts at this position does not fit in its bit width.
    ValueOutOfRange(usize),
    /// The declaration that starts at this position has more or fewer initial values than elements.
    WrongValueCount(usize),
}

/// What a spec parser yields: the parsed value and the position just after it.
pub type SResult<T> = Result<(T, int), ParseError>;

/// `prefix` followed by the parsed list in `r`, or the error in `r`.
pub open spec fn prepend_list<T>(prefix: Seq<T>, r: SResult<Seq<T>>) -> SResult<Seq<T>> {
    match r {
        Ok((xs, q)) => Ok((prefix + xs, q)),
        Err(e) => Err(e),
    }
}

/// A list of items, each starting with a token that satisfies `starts`; the list ends at the
/// first token that does not (or at the end of the tokens).
pub open spec fn many<T>(
    ts: Seq<SpecToken>,
    pos: int,
    starts: spec_fn(SpecToken) -> bool,
    item: spec_fn(Seq<SpecToken>, int) -> SResult<T>,
) -> SResult<Seq<T>>
    decreases ts.len() - pos,
{
    if 0 <= pos < ts.len() && starts(ts[pos]) {
        match item(ts, pos) {
            Err(e) => Err(e),
            Ok((x, p)) => if pos < p <= ts.len() {
                prepend_list(seq![x], many(ts, p, starts, item))
            } else {
                Err(ParseError::UnexpectedToken(pos as usize))
            },
        }
    } else {
        Ok((Seq::empty(), pos))
    }
}

/// The token at `pos`, if any.
pub open spec fn token_at(ts: Seq<SpecToken>, pos: int) -> Option<SpecToken> {
    if 0 <= pos < ts.len() {
        Some(ts[pos])
    } else {
        None
    }
}

/// Consumes the token `t` at `pos`.
pub open spec fn expect(ts: Seq<SpecToken>, pos: int, t: SpecToken) -> Result<int, ParseError> {
    if pos < 0 || pos >= ts.len() {
        Err(ParseError::UnexpectedEnd)
    } else if ts[pos] == t {
        Ok(pos + 1)
    } else {
        Err(ParseError::UnexpectedToken(pos as usize))
    }
}

/// An exec parser result agrees with a spec parser result.
pub open spec fn parsed<T: View>(r: Result<(T, usize), ParseError>, s: SResult<T::V>) -> bool {
    match r {
        Ok((x, p)) => s == Ok::<(T::V, int), ParseError>((x@, p as int)),
        Err(e) => s == Err::<(T::V, int), ParseError>(e),
    }
}

/// An exec list parser result agrees with a spec parser result.
pub open spec fn parsed_seq<T: View>(r: Result<(Vec<T>, usize), ParseError>, s: SResult<Seq<T::V>>) -> bool {
    match r {
        Ok((x, p)) => s == Ok::<(Seq<T::V>, int), ParseError>((vec_view(x@), p as int)),
        Err(e) => s == Err::<(Seq<T::V>, int), ParseError>(e),
    }
}

/// A successful parse consumed at least one token and stayed within the tokens.
pub open spec fn advanced<T>(r: Result<(T, usize), ParseError>, pos: usize, len: int) -> bool {
    r matches Ok((_, p)) ==> pos < p <= len
}

/// A successful parse stayed within the tokens and did not move back.
pub open spec fn moved<T>(r: Result<(T, usize), ParseError>, pos: usize, len: int) -> bool {
    r matches Ok((_, p)) ==> pos <= p <= len
}

pub proof fn lemma_prepend_push<T>(prefix: Seq<T>, x: T, r: SResult<Seq<T>>)
    ensures prepend_list(prefix, prepend_list(seq![x], r)) == prepend_list(prefix.push(x), r),
{
    match r {
        Ok((xs, q)) => {
            assert(prefix + (seq![x] + xs) =~= prefix.push(x) + xs);
        },
        Err(_) => {},
    }
}

pub proof fn lemma_prepend_empty<T>(r: SResult<Seq<T>>)
    ensures prepend_list(Seq::<T>::empty(), r) == r,
{
    match r {
        Ok((xs, q)) => {
            assert(Seq::<T>::empty() + xs =~= xs);
        },
        Err(_) => {},
    }
}

/// Consumes the token `expected` at `pos`.
pub fn match_token(ts: &Vec<Token>, pos: usize, expected: Token) -> (r: Result<usize, ParseError>)
    ensures
        match r {
            Ok(p) => expect(tokens_view(ts@), pos as int, expected@) == Ok::<int, ParseError>(p as int)
                && p == pos + 1 && p <= ts@.len(),
            Err(e) => expect(tokens_view(ts@), pos as int, expected@) == Err::<int, ParseError>(e),
        },
{
    if pos >= ts.len() {
        Err(ParseError::UnexpectedEnd)
    } else if token_eq(&ts[pos], &expected) {
        Ok(pos + 1)
    } else {
        Err(ParseError::UnexpectedToken(pos))
    }
}

} // verus!

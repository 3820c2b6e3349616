use vstd::prelude::*;

use crate::text::string_of;

verus! {

/// Why a parse failed.
#[derive(Debug, Clone, Copy, PartialEq, Eq, Structural)]
pub enum CustomError {
    /// A source or target token is missing, or the URI grammar left part of it unread.
    MalformedUri,
    /// A rule token has no alphanumeric name followed by `://`.
    MalformedRuleToken,
    /// A value opens with a delimiter that is not closed at its last character.
    MalformedValueDelimiter,
    /// A template ends with a lone backslash.
    UnterminatedTemplateEscape,
    /// A template opens `${` without a closing `}`.
    UnterminatedInterpolation,
    /// A template opens with `(` but does not end with `)`.
    UnbalancedTemplateParenthesis,
    /// A document opens a code fence that is not closed.
    UnterminatedCodeFence,
    /// A document holds no characters at all.
    EmptyDocument,
}

/// A failed parse: what went wrong, and the token on which it went wrong.
#[derive(Debug, Clone, PartialEq, Eq)]
pub struct ParseFailure {
    pub kind: CustomError,
    pub token: String,
}

/// What a `ParseFailure` holds.
pub ghost struct FailureView {
    pub kind: CustomError,
    pub token: Seq<char>,
}

impl View for ParseFailure {
    type V = FailureView;

    open spec fn view(&self) -> FailureView {
        FailureView { kind: self.kind, token: self.token@ }
    }
}

pub open spec fn failure(kind: CustomError, token: Seq<char>) -> FailureView {
    FailureView { kind, token }
}

/// A failure of the given kind on the token `v[lo..hi]`.
pub fn fail(kind: CustomError, v: &Vec<char>, lo: usize, hi: usize) -> (r: ParseFailure)
    requires
        lo <= hi <= v@.len(),
    ensures
        r@ == failure(kind, v@.subrange(lo as int, hi as int)),
{
    ParseFailure { kind, token: string_of(v, lo, hi) }
}

/// A failure of the given kind on the token `v`.
pub fn fail_on(kind: CustomError, v: &Vec<char>) -> (r: ParseFailure)
    ensures
        r@ == failure(kind, v@),
{
    assert(v@.subrange(0, v@.len() as int) =~= v@);
    fail(kind, v, 0, v.len())
}

/// `x` in front of the sequence that `r` holds, or `r`'s error.
pub open spec fn cons<T, E>(x: T, r: Result<Seq<T>, E>) -> Result<Seq<T>, E> {
    match r {
        Ok(v) => Ok(seq![x] + v),
        Err(e) => Err(e),
    }
}

/// `a` in front of the sequence that `r` holds, or `r`'s error.
pub open spec fn prepend<T, E>(a: Seq<T>, r: Result<Seq<T>, E>) -> Result<Seq<T>, E> {
    match r {
        Ok(v) => Ok(a + v),
        Err(e) => Err(e),
    }
}

pub proof fn lemma_prepend_cons<T, E>(a: Seq<T>, x: T, r: Result<Seq<T>, E>)
    ensures
        prepend(a, cons(x, r)) == prepend(a.push(x), r),
{
    if let Ok(v) = r {
        assert(a + (seq![x] + v) =~= a.push(x) + v);
    }
}

pub proof fn lemma_prepend_empty<T, E>(r: Result<Seq<T>, E>)
    ensures
        prepend(Seq::<T>::empty(), r) == r,
{
    if let Ok(v) = r {
        assert(Seq::<T>::empty() + v =~= v);
    }
}

} // verus!

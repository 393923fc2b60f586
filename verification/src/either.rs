//! A value of one of two types.

use vstd::prelude::*;

verus! {

/// A value that is either a `Left` or a `Right`.
#[derive(Debug, Clone)]
pub enum Either<L, R> {
    Left(L),
    Right(R),
}

impl<L, R> Either<L, R> {
    /// The same value with `f` applied to a `Left`; a `Right` stays as it is.
    pub fn map_left<U, F>(self, f: F) -> (mapped: Either<U, R>) where F: FnOnce(L) -> U
        requires
            self matches Either::Left(l) ==> f.requires((l,)),
        ensures
            match self {
                Either::Left(l) => mapped matches Either::Left(u) && f.ensures((l,), u),
                Either::Right(r) => mapped == Either::<U, R>::Right(r),
            },
    {
        match self {
            Either::Left(l) => Either::Left(f(l)),
            Either::Right(r) => Either::Right(r),
        }
    }

    /// The same value with `f` applied to a `Right`; a `Left` stays as it is.
    pub fn map_right<U, F>(self, f: F) -> (mapped: Either<L, U>) where F: FnOnce(R) -> U
        requires
            self matches Either::Right(r) ==> f.requires((r,)),
        ensures
            match self {
                Either::Left(l) => mapped == Either::<L, U>::Left(l),
                Either::Right(r) => mapped matches Either::Right(u) && f.ensures((r,), u),
            },
    {
        match self {
            Either::Left(l) => Either::Left(l),
            Either::Right(r) => Either::Right(f(r)),
        }
    }

    pub fn is_left(&self) -> (b: bool)
        ensures
            b == (self is Left),
    {
        match self {
            Either::Left(_) => true,
            Either::Right(_) => false,
        }
    }

    pub fn is_right(&self) -> (b: bool)
        ensures
            b == (self is Right),
    {
        match self {
            Either::Left(_) => false,
            Either::Right(_) => true,
        }
    }

    /// The value of a `Left`.
    pub fn left(self) -> (l: Option<L>)
        ensures
            l == (match self {
                Either::Left(l) => Some(l),
                Either::Right(_) => None,
            }),
    {
        match self {
            Either::Left(l) => Some(l),
            Either::Right(_) => None,
        }
    }

    /// The value of a `Right`.
    pub fn right(self) -> (r: Option<R>)
        ensures
            r == (match self {
                Either::Left(_) => None,
                Either::Right(r) => Some(r),
            }),
    {
        match self {
            Either::Left(_) => None,
            Either::Right(r) => Some(r),
        }
    }
}


/// The message for a text that is neither of the two.
pub open spec fn failure(s: Seq<char>, left_name: Seq<char>, right_name: Seq<char>) -> Seq<char> {
    "`"@ + s + "` is not parsable as either `"@ + left_name + "` or `"@ + right_name + "`"@
}

impl<L, R> Either<L, R> {
    /// Reads `s` as a `Left` with `left`, or else as a `Right` with `right`.
    /// Where neither makes anything of it, the message names the two kinds
    /// by `names`.
    pub fn from_str<PL, PR>(s: &str, left: PL, right: PR, names: (&str, &str)) -> (r: Result<
        Either<L, R>,
        String,
    >) where PL: FnOnce(&str) -> Option<L>, PR: FnOnce(&str) -> Option<R>
        requires
            left.requires((s,)),
            right.requires((s,)),
        ensures
            match r {
                Ok(Either::Left(l)) => left.ensures((s,), Some(l)),
                Ok(Either::Right(x)) => left.ensures((s,), None::<L>) && right.ensures(
                    (s,),
                    Some(x),
                ),
                Err(message) => left.ensures((s,), None::<L>) && right.ensures(
                    (s,),
                    None::<R>,
                ) && message@ == failure(s@, names.0@, names.1@),
            },
    {
        match left(s) {
            Some(l) => Ok(Either::Left(l)),
            None => match right(s) {
                Some(x) => Ok(Either::Right(x)),
                None => {
                    let mut message = String::from_str("`");
                    message.append(s);
                    message.append("` is not parsable as either `");
                    message.append(names.0);
                    message.append("` or `");
                    message.append(names.1);
                    message.append("`");
                    Err(message)
                },
            },
        }
    }
}

} // verus!

//! Numeric literals read into arbitrary-precision integers of the `rug` crate.
use rug::Integer;
use std::convert::TryFrom;
use vstd::prelude::*;
use vstd::std_specs::convert::TryFromSpecImpl;

use crate::chars::{digit_value, to_digit};
use crate::number::{Number, NumberView, TryFromNumberError, TryFromNumberErrorKind};

verus! {

#[verifier::external_type_specification]
#[verifier::external_body]
pub struct ExInteger(Integer);

/// The mathematical integer that a `rug::Integer` holds.
pub uninterp spec fn integer_value(i: Integer) -> int;

/// `Integer::new`, documented to make an integer of value zero.
#[verifier::external_body]
fn integer_zero() -> (r: Integer)
    ensures
        integer_value(r) == 0,
{
    Integer::new()
}

/// `<Integer as Mul<u32>>::mul`, the exact product.
#[verifier::external_body]
fn integer_mul(n: Integer, m: u32) -> (r: Integer)
    ensures
        integer_value(r) == integer_value(n) * m,
{
    n * m
}

/// `<Integer as Add<u32>>::add`, the exact sum.
#[verifier::external_body]
fn integer_add(n: Integer, m: u32) -> (r: Integer)
    ensures
        integer_value(r) == integer_value(n) + m,
{
    n + m
}

/// `<Integer as Neg>::neg`, the exact negation.
#[verifier::external_body]
fn integer_neg(n: Integer) -> (r: Integer)
    ensures
        integer_value(r) == -integer_value(n),
{
    -n
}

/// Reading digits from the left into an accumulator `acc` with no bound: the first character
/// that is no digit of the radix is the error.
pub open spec fn read_digits(cs: Seq<char>, radix: u32, acc: int) -> Result<int, TryFromNumberErrorKind>
    decreases cs.len(),
{
    if cs.len() == 0 {
        Ok(acc)
    } else {
        match digit_value(cs[0], radix) {
            None => Err(TryFromNumberErrorKind::InvalidDigit(radix)),
            Some(d) => read_digits(cs.drop_first(), radix, acc * radix + d),
        }
    }
}

/// The integer that a numeric literal denotes, or why it denotes none.
pub open spec fn unbounded_value(n: NumberView) -> Result<int, TryFromNumberErrorKind> {
    match read_digits(n.contents, n.radix, 0) {
        Ok(v) => Ok(if n.negative { -v } else { v }),
        Err(k) => Err(k),
    }
}

impl<'a> TryFrom<Number<'a>> for Integer {
    type Error = TryFromNumberError<'a>;

    fn try_from(num: Number<'a>) -> (r: Result<Integer, TryFromNumberError<'a>>)
        ensures
            r matches Ok(i) ==> unbounded_value(num@) == Ok::<int, TryFromNumberErrorKind>(integer_value(i)),
            r matches Err(e) ==> unbounded_value(num@) == Err::<int, TryFromNumberErrorKind>(e@.kind),
            r matches Err(e) ==> e@.num == num@.contents,
            r matches Err(e) ==> e.source() == num.digits(),
    {
        proof {
            use_type_invariant(&num);
            num.lemma_view();
        }
        let radix = num.radix;
        let contents = num.contents;
        let mut acc = integer_zero();
        let ghost cs = contents@;
        proof {
            assert(cs.skip(0) =~= cs);
        }
        for c in it: contents.chars()
            invariant
                it.seq() == cs,
                cs == num@.contents,
                cs == contents@,
                contents == num.digits(),
                radix == num@.radix,
                2 <= radix <= 36,
                read_digits(cs, radix, 0) == read_digits(cs.skip(it.index() as int), radix, integer_value(acc)),
        {
            let ghost k = it.index() as int;
            proof {
                assert(cs.skip(k)[0] == c);
                assert(cs.skip(k).drop_first() =~= cs.skip(k + 1));
            }
            let scaled = integer_mul(acc, radix);
            match to_digit(c, radix) {
                None => {
                    return Err(TryFromNumberError::new(contents, TryFromNumberErrorKind::InvalidDigit(radix)));
                },
                Some(d) => {
                    acc = integer_add(scaled, d);
                },
            }
        }
        proof {
            assert(cs.skip(cs.len() as int) =~= Seq::<char>::empty());
        }
        if num.negative {
            Ok(integer_neg(acc))
        } else {
            Ok(acc)
        }
    }
}

impl<'a> TryFromSpecImpl<Number<'a>> for Integer {
    /// The conversion is stated on the integer's value by the `ensures` of `try_from`, as an
    /// `Integer` has no value that a specification can build.
    open spec fn obeys_try_from_spec() -> bool {
        false
    }

    open spec fn try_from_spec(num: Number<'a>) -> Result<Integer, TryFromNumberError<'a>> {
        vstd::pervasive::arbitrary()
    }
}

} // verus!

//! Numeric literals and their conversion into machine integers.
use std::convert::TryFrom;
use vstd::std_specs::convert::TryFromSpecImpl;
use vstd::prelude::*;
use vstd::string::{StrSliceExecFns, StringExecFns};

use crate::chars::{digit_value, to_digit};

verus! {

/// A numeric literal: its radix, its sign and its digits as they stand in the source.
#[derive(Clone, Copy, Debug, PartialEq, Eq)]
pub struct Number<'a> {
    pub(crate) radix: u32,
    pub(crate) negative: bool,
    pub(crate) contents: &'a str,
}

/// The model of a [`Number`].
pub struct NumberView {
    pub radix: u32,
    pub negative: bool,
    pub contents: Seq<char>,
}

impl<'a> View for Number<'a> {
    type V = NumberView;

    closed spec fn view(&self) -> NumberView {
        NumberView { radix: self.radix, negative: self.negative, contents: self.contents@ }
    }
}

impl<'a> Number<'a> {
    /// Digits are read with `char::to_digit`, which only knows the radixes 2 to 36.
    #[verifier::type_invariant]
    pub(crate) open spec fn radix_in_range(self) -> bool {
        2 <= self.radix <= 36
    }

    /// The digits of the literal, as the borrowed text they came from.
    pub closed spec fn digits(self) -> &'a str {
        self.contents
    }

    /// What the model of a number is made of, for the other modules of the crate.
    pub(crate) proof fn lemma_view(self)
        ensures
            self@.radix == self.radix,
            self@.negative == self.negative,
            self@.contents == self.contents@,
            self.digits() == self.contents,
    {
    }

    pub fn new(radix: u32, negative: bool, contents: &'a str) -> (n: Self)
        requires
            2 <= radix <= 36,
        ensures
            n@ == (NumberView { radix, negative, contents: contents@ }),
            n.digits() == contents,
    {
        Self { radix, negative, contents }
    }

    /// The magnitude of the digits read in the radix, checked against `max` in the order in
    /// which a checked multiply-then-add reads them from the left, then given the sign.
    fn bounded_value(&self, max: u128) -> (r: Result<i128, TryFromNumberErrorKind>)
        requires
            127 <= max <= i128::MAX,
        ensures
            match r {
                Ok(v) => number_value(self@, max as int) == Ok::<int, TryFromNumberErrorKind>(v as int)
                    && -(max as int) <= v <= max,
                Err(k) => number_value(self@, max as int) == Err::<int, TryFromNumberErrorKind>(k),
            },
    {
        proof { use_type_invariant(self); }
        let radix = self.radix;
        let r128 = radix as u128;
        let mut acc: u128 = 0;
        let ghost cs = self.contents@;
        proof {
            assert(cs.skip(0) =~= cs);
        }
        for c in it: self.contents.chars()
            invariant
                it.seq() == cs,
                cs == self@.contents,
                radix == self@.radix,
                r128 == radix as u128,
                2 <= radix <= 36,
                127 <= max <= i128::MAX,
                acc <= max,
                accumulate_digits(cs, radix, max as int, 0)
                    == accumulate_digits(cs.skip(it.index() as int), radix, max as int, acc as int),
        {
            let ghost k = it.index() as int;
            proof {
                assert(cs.skip(k)[0] == c);
                assert(cs.skip(k).drop_first() =~= cs.skip(k + 1));
                lemma_mul_exceeds(acc as int, radix as int, max as int);
            }
            if acc > max / r128 {
                return Err(TryFromNumberErrorKind::Overflow);
            }
            let prod = acc * r128;
            match to_digit(c, radix) {
                None => {
                    return Err(TryFromNumberErrorKind::InvalidDigit(radix));
                },
                Some(d) => {
                    if prod > max - d as u128 {
                        return Err(TryFromNumberErrorKind::Overflow);
                    }
                    acc = prod + d as u128;
                },
            }
        }
        proof {
            assert(cs.skip(cs.len() as int) =~= Seq::<char>::empty());
        }
        if self.negative {
            Ok(-(acc as i128))
        } else {
            Ok(acc as i128)
        }
    }
}

/// For a positive factor, `acc * r > max` exactly when `acc > max / r`.
proof fn lemma_mul_exceeds(acc: int, r: int, max: int)
    requires
        0 <= acc,
        0 < r,
        0 <= max,
    ensures
        (acc * r > max) == (acc > max / r),
{
    let q = max / r;
    vstd::arithmetic::div_mod::lemma_fundamental_div_mod(max, r);
    vstd::arithmetic::div_mod::lemma_mod_bound(max, r);
    assert(max == r * q + max % r);
    if acc > q {
        assert(acc * r >= (q + 1) * r) by (nonlinear_arith)
            requires acc >= q + 1, r > 0;
        assert((q + 1) * r == r * q + r) by (nonlinear_arith);
    } else {
        assert(acc * r <= q * r) by (nonlinear_arith)
            requires acc <= q, r > 0;
        assert(q * r == r * q) by (nonlinear_arith);
    }
}

/// Reading digits from the left into an accumulator `acc`, where a result above `max` is an
/// overflow. Each step multiplies by the radix, checks that, then reads the digit, then adds it
/// and checks again; the first failing check gives the error.
pub open spec fn accumulate_digits(cs: Seq<char>, radix: u32, max: int, acc: int) -> Result<int, TryFromNumberErrorKind>
    decreases cs.len(),
{
    if cs.len() == 0 {
        Ok(acc)
    } else if acc * radix > max {
        Err(TryFromNumberErrorKind::Overflow)
    } else {
        match digit_value(cs[0], radix) {
            None => Err(TryFromNumberErrorKind::InvalidDigit(radix)),
            Some(d) => if acc * radix + d > max {
                Err(TryFromNumberErrorKind::Overflow)
            } else {
                accumulate_digits(cs.drop_first(), radix, max, acc * radix + d)
            },
        }
    }
}

/// The integer that a numeric literal denotes in a signed type whose largest value is `max`,
/// or why it has none there.
pub open spec fn number_value(n: NumberView, max: int) -> Result<int, TryFromNumberErrorKind> {
    match accumulate_digits(n.contents, n.radix, max, 0) {
        Ok(v) => Ok(if n.negative { -v } else { v }),
        Err(k) => Err(k),
    }
}

/// Why a numeric literal does not fit the requested type.
#[derive(Debug, PartialEq)]
pub struct TryFromNumberError<'a> {
    num: &'a str,
    kind: TryFromNumberErrorKind,
}

/// The model of a [`TryFromNumberError`].
pub struct TryFromNumberErrorView {
    pub num: Seq<char>,
    pub kind: TryFromNumberErrorKind,
}

impl<'a> View for TryFromNumberError<'a> {
    type V = TryFromNumberErrorView;

    closed spec fn view(&self) -> TryFromNumberErrorView {
        TryFromNumberErrorView { num: self.num@, kind: self.kind }
    }
}

impl<'a> TryFromNumberError<'a> {
    /// The digits of the literal that failed, as the borrowed text they came from.
    pub closed spec fn source(self) -> &'a str {
        self.num
    }

    pub fn new(num: &'a str, kind: TryFromNumberErrorKind) -> (e: Self)
        ensures
            e@ == (TryFromNumberErrorView { num: num@, kind }),
            e.source() == num,
    {
        Self { num, kind }
    }
}

/// The two ways a numeric literal can fail to convert.
#[derive(Debug, PartialEq)]
pub enum TryFromNumberErrorKind {
    Overflow,
    /// Contains radix
    InvalidDigit(u32),
}

/// What a conversion into a signed type whose largest value is `max` gives for `num`.
pub open spec fn converted<'a>(num: Number<'a>, max: int) -> Result<int, TryFromNumberErrorView> {
    match number_value(num@, max) {
        Ok(v) => Ok(v),
        Err(k) => Err(TryFromNumberErrorView { num: num@.contents, kind: k }),
    }
}

impl<'a> TryFrom<Number<'a>> for i8 {
    type Error = TryFromNumberError<'a>;

    fn try_from(num: Number<'a>) -> (r: Result<i8, TryFromNumberError<'a>>)
        ensures
            r matches Ok(v) ==> converted(num, i8::MAX as int) == Ok::<int, TryFromNumberErrorView>(v as int),
            r matches Err(e) ==> converted(num, i8::MAX as int) == Err::<int, TryFromNumberErrorView>(e@)
                && e.source() == num.digits(),
    {
        match num.bounded_value(i8::MAX as u128) {
            Ok(v) => Ok(v as i8),
            Err(k) => Err(TryFromNumberError::new(num.contents, k)),
        }
    }
}

impl<'a> TryFromSpecImpl<Number<'a>> for i8 {
    open spec fn obeys_try_from_spec() -> bool {
        true
    }

    closed spec fn try_from_spec(num: Number<'a>) -> Result<i8, TryFromNumberError<'a>> {
        match number_value(num@, i8::MAX as int) {
            Ok(v) => Ok(v as i8),
            Err(k) => Err(TryFromNumberError { num: num.contents, kind: k }),
        }
    }
}

impl<'a> TryFrom<Number<'a>> for i16 {
    type Error = TryFromNumberError<'a>;

    fn try_from(num: Number<'a>) -> (r: Result<i16, TryFromNumberError<'a>>)
        ensures
            r matches Ok(v) ==> converted(num, i16::MAX as int) == Ok::<int, TryFromNumberErrorView>(v as int),
            r matches Err(e) ==> converted(num, i16::MAX as int) == Err::<int, TryFromNumberErrorView>(e@)
                && e.source() == num.digits(),
    {
        match num.bounded_value(i16::MAX as u128) {
            Ok(v) => Ok(v as i16),
            Err(k) => Err(TryFromNumberError::new(num.contents, k)),
        }
    }
}

impl<'a> TryFromSpecImpl<Number<'a>> for i16 {
    open spec fn obeys_try_from_spec() -> bool {
        true
    }

    closed spec fn try_from_spec(num: Number<'a>) -> Result<i16, TryFromNumberError<'a>> {
        match number_value(num@, i16::MAX as int) {
            Ok(v) => Ok(v as i16),
            Err(k) => Err(TryFromNumberError { num: num.contents, kind: k }),
        }
    }
}

impl<'a> TryFrom<Number<'a>> for i32 {
    type Error = TryFromNumberError<'a>;

    fn try_from(num: Number<'a>) -> (r: Result<i32, TryFromNumberError<'a>>)
        ensures
            r matches Ok(v) ==> converted(num, i32::MAX as int) == Ok::<int, TryFromNumberErrorView>(v as int),
            r matches Err(e) ==> converted(num, i32::MAX as int) == Err::<int, TryFromNumberErrorView>(e@)
                && e.source() == num.digits(),
    {
        match num.bounded_value(i32::MAX as u128) {
            Ok(v) => Ok(v as i32),
            Err(k) => Err(TryFromNumberError::new(num.contents, k)),
        }
    }
}

impl<'a> TryFromSpecImpl<Number<'a>> for i32 {
    open spec fn obeys_try_from_spec() -> bool {
        true
    }

    closed spec fn try_from_spec(num: Number<'a>) -> Result<i32, TryFromNumberError<'a>> {
        match number_value(num@, i32::MAX as int) {
            Ok(v) => Ok(v as i32),
            Err(k) => Err(TryFromNumberError { num: num.contents, kind: k }),
        }
    }
}

impl<'a> TryFrom<Number<'a>> for i64 {
    type Error = TryFromNumberError<'a>;

    fn try_from(num: Number<'a>) -> (r: Result<i64, TryFromNumberError<'a>>)
        ensures
            r matches Ok(v) ==> converted(num, i64::MAX as int) == Ok::<int, TryFromNumberErrorView>(v as int),
            r matches Err(e) ==> converted(num, i64::MAX as int) == Err::<int, TryFromNumberErrorView>(e@)
                && e.source() == num.digits(),
    {
        match num.bounded_value(i64::MAX as u128) {
            Ok(v) => Ok(v as i64),
            Err(k) => Err(TryFromNumberError::new(num.contents, k)),
        }
    }
}

impl<'a> TryFromSpecImpl<Number<'a>> for i64 {
    open spec fn obeys_try_from_spec() -> bool {
        true
    }

    closed spec fn try_from_spec(num: Number<'a>) -> Result<i64, TryFromNumberError<'a>> {
        match number_value(num@, i64::MAX as int) {
            Ok(v) => Ok(v as i64),
            Err(k) => Err(TryFromNumberError { num: num.contents, kind: k }),
        }
    }
}

impl<'a> TryFrom<Number<'a>> for i128 {
    type Error = TryFromNumberError<'a>;

    fn try_from(num: Number<'a>) -> (r: Result<i128, TryFromNumberError<'a>>)
        ensures
            r matches Ok(v) ==> converted(num, i128::MAX as int) == Ok::<int, TryFromNumberErrorView>(v as int),
            r matches Err(e) ==> converted(num, i128::MAX as int) == Err::<int, TryFromNumberErrorView>(e@)
                && e.source() == num.digits(),
    {
        match num.bounded_value(i128::MAX as u128) {
            Ok(v) => Ok(v as i128),
            Err(k) => Err(TryFromNumberError::new(num.contents, k)),
        }
    }
}

impl<'a> TryFromSpecImpl<Number<'a>> for i128 {
    open spec fn obeys_try_from_spec() -> bool {
        true
    }

    closed spec fn try_from_spec(num: Number<'a>) -> Result<i128, TryFromNumberError<'a>> {
        match number_value(num@, i128::MAX as int) {
            Ok(v) => Ok(v as i128),
            Err(k) => Err(TryFromNumberError { num: num.contents, kind: k }),
        }
    }
}

impl<'a> TryFrom<Number<'a>> for isize {
    type Error = TryFromNumberError<'a>;

    fn try_from(num: Number<'a>) -> (r: Result<isize, TryFromNumberError<'a>>)
        ensures
            r matches Ok(v) ==> converted(num, isize::MAX as int) == Ok::<int, TryFromNumberErrorView>(v as int),
            r matches Err(e) ==> converted(num, isize::MAX as int) == Err::<int, TryFromNumberErrorView>(e@)
                && e.source() == num.digits(),
    {
        match num.bounded_value(isize::MAX as u128) {
            Ok(v) => Ok(v as isize),
            Err(k) => Err(TryFromNumberError::new(num.contents, k)),
        }
    }
}

impl<'a> TryFromSpecImpl<Number<'a>> for isize {
    open spec fn obeys_try_from_spec() -> bool {
        true
    }

    closed spec fn try_from_spec(num: Number<'a>) -> Result<isize, TryFromNumberError<'a>> {
        match number_value(num@, isize::MAX as int) {
            Ok(v) => Ok(v as isize),
            Err(k) => Err(TryFromNumberError { num: num.contents, kind: k }),
        }
    }
}

/// The decimal digits of `n`.
pub open spec fn decimal(n: nat) -> Seq<char>
    decreases n,
{
    if n < 10 {
        seq![digit_char(n)]
    } else {
        decimal(n / 10).push(digit_char(n % 10))
    }
}

/// The character of a decimal digit.
pub open spec fn digit_char(d: nat) -> char {
    ('0' as int + d) as char
}

/// What a conversion error says, as `Display` would print it.
pub open spec fn kind_message(k: TryFromNumberErrorKind) -> Seq<char> {
    match k {
        TryFromNumberErrorKind::InvalidDigit(radix) => "invalid digit of radix `"@ + decimal(radix as nat) + "`"@,
        TryFromNumberErrorKind::Overflow => "number too large"@,
    }
}

/// The message of a conversion error: the literal and what is wrong with it.
pub open spec fn error_message(e: TryFromNumberErrorView) -> Seq<char> {
    "invalid number `"@ + e.num + "`: "@ + kind_message(e.kind)
}

/// Appends the decimal digits of `n`.
fn push_decimal(out: &mut String, n: u32)
    ensures
        final(out)@ == old(out)@ + decimal(n as nat),
    decreases n,
{
    if n >= 10 {
        push_decimal(out, n / 10);
    }
    let d = (n % 10) as usize;
    let digits = "0123456789";
    proof {
        reveal_strlit("0123456789");
        assert(vstd::string::is_ascii(digits));
    }
    out.append(digits.substring_ascii(d, d + 1));
    proof {
        assert(digits@.subrange(d as int, d + 1) =~= seq![digit_char(d as nat)]);
    }
}

impl TryFromNumberErrorKind {
    /// What is wrong with the literal, as `Display` prints it.
    pub fn message(&self) -> (m: String)
        ensures
            m@ == kind_message(*self),
    {
        match self {
            TryFromNumberErrorKind::InvalidDigit(radix) => {
                let mut m = String::from_str("invalid digit of radix `");
                push_decimal(&mut m, *radix);
                m.append("`");
                m
            },
            TryFromNumberErrorKind::Overflow => String::from_str("number too large"),
        }
    }
}

impl<'a> TryFromNumberError<'a> {
    /// The error as `Display` prints it: ``invalid number `<digits>`: <what is wrong>``.
    pub fn message(&self) -> (m: String)
        ensures
            m@ == error_message(self@),
    {
        let mut m = String::from_str("invalid number `");
        m.append(self.num);
        m.append("`: ");
        let k = self.kind.message();
        m.append(k.as_str());
        m
    }
}

} // verus!

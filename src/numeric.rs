use vstd::prelude::*;
use vstd::arithmetic::power::*;
use vstd::arithmetic::mul::*;

verus! {

/// An element type for `Matrix`: a non-negative machine number whose
/// arithmetic reports results that do not fit instead of wrapping.
pub trait Numeric: Copy + Sized {
    /// The mathematical value of the element.
    spec fn value(self) -> int;

    /// The largest value the type can hold.
    spec fn upper() -> int;

    proof fn lemma_range(self)
        ensures
            0 <= self.value() <= Self::upper(),
    ;

    fn zero() -> (r: Self)
        ensures
            r.value() == 0,
    ;

    fn one() -> (r: Self)
        ensures
            r.value() == 1,
    ;

    /// The value as a `u64`; every `Numeric` type fits in one.
    fn to_u64(self) -> (r: u64)
        ensures
            r == self.value(),
    ;

    fn value_is_at_most_one(self) -> (r: bool)
        ensures
            r == (self.value() <= 1),
    ;

    fn try_add(self, other: Self) -> (r: Option<Self>)
        ensures
            r is Some <==> self.value() + other.value() <= Self::upper(),
            r matches Some(v) ==> v.value() == self.value() + other.value(),
    ;

    fn try_sub(self, other: Self) -> (r: Option<Self>)
        ensures
            r is Some <==> self.value() >= other.value(),
            r matches Some(v) ==> v.value() == self.value() - other.value(),
    ;

    fn try_mul(self, other: Self) -> (r: Option<Self>)
        ensures
            r is Some <==> self.value() * other.value() <= Self::upper(),
            r matches Some(v) ==> v.value() == self.value() * other.value(),
    ;

    fn quotient(self, other: Self) -> (r: Self)
        requires
            other.value() != 0,
        ensures
            r.value() == self.value() / other.value(),
    ;
}

impl Numeric for u8 {
    open spec fn value(self) -> int {
        self as int
    }

    open spec fn upper() -> int {
        u8::MAX as int
    }

    proof fn lemma_range(self) {
    }

    fn zero() -> (r: u8) {
        0
    }

    fn one() -> (r: u8) {
        1
    }

    fn to_u64(self) -> (r: u64) {
        self as u64
    }

    fn value_is_at_most_one(self) -> (r: bool) {
        self <= 1
    }

    fn try_add(self, other: u8) -> (r: Option<u8>) {
        self.checked_add(other)
    }

    fn try_sub(self, other: u8) -> (r: Option<u8>) {
        self.checked_sub(other)
    }

    fn try_mul(self, other: u8) -> (r: Option<u8>) {
        self.checked_mul(other)
    }

    fn quotient(self, other: u8) -> (r: u8) {
        self / other
    }
}

impl Numeric for u16 {
    open spec fn value(self) -> int {
        self as int
    }

    open spec fn upper() -> int {
        u16::MAX as int
    }

    proof fn lemma_range(self) {
    }

    fn zero() -> (r: u16) {
        0
    }

    fn one() -> (r: u16) {
        1
    }

    fn to_u64(self) -> (r: u64) {
        self as u64
    }

    fn value_is_at_most_one(self) -> (r: bool) {
        self <= 1
    }

    fn try_add(self, other: u16) -> (r: Option<u16>) {
        self.checked_add(other)
    }

    fn try_sub(self, other: u16) -> (r: Option<u16>) {
        self.checked_sub(other)
    }

    fn try_mul(self, other: u16) -> (r: Option<u16>) {
        self.checked_mul(other)
    }

    fn quotient(self, other: u16) -> (r: u16) {
        self / other
    }
}

impl Numeric for u32 {
    open spec fn value(self) -> int {
        self as int
    }

    open spec fn upper() -> int {
        u32::MAX as int
    }

    proof fn lemma_range(self) {
    }

    fn zero() -> (r: u32) {
        0
    }

    fn one() -> (r: u32) {
        1
    }

    fn to_u64(self) -> (r: u64) {
        self as u64
    }

    fn value_is_at_most_one(self) -> (r: bool) {
        self <= 1
    }

    fn try_add(self, other: u32) -> (r: Option<u32>) {
        self.checked_add(other)
    }

    fn try_sub(self, other: u32) -> (r: Option<u32>) {
        self.checked_sub(other)
    }

    fn try_mul(self, other: u32) -> (r: Option<u32>) {
        self.checked_mul(other)
    }

    fn quotient(self, other: u32) -> (r: u32) {
        self / other
    }
}

impl Numeric for usize {
    open spec fn value(self) -> int {
        self as int
    }

    open spec fn upper() -> int {
        usize::MAX as int
    }

    proof fn lemma_range(self) {
    }

    fn zero() -> (r: usize) {
        0
    }

    fn one() -> (r: usize) {
        1
    }

    fn to_u64(self) -> (r: u64) {
        self as u64
    }

    fn value_is_at_most_one(self) -> (r: bool) {
        self <= 1
    }

    fn try_add(self, other: usize) -> (r: Option<usize>) {
        self.checked_add(other)
    }

    fn try_sub(self, other: usize) -> (r: Option<usize>) {
        self.checked_sub(other)
    }

    fn try_mul(self, other: usize) -> (r: Option<usize>) {
        self.checked_mul(other)
    }

    fn quotient(self, other: usize) -> (r: usize) {
        self / other
    }
}

/// `base` raised to `exp`, or `None` where that power does not fit in `T`.
/// Repeated checked multiplication; it stops as soon as the running power
/// leaves the range, which for a base of two or more happens within the bit
/// width of `T`.
pub fn checked_power<T: Numeric>(base: T, exp: T) -> (r: Option<T>)
    ensures
        r is Some <==> pow(base.value(), exp.value() as nat) <= T::upper(),
        r matches Some(v) ==> v.value() == pow(base.value(), exp.value() as nat),
{
    let b = Ghost(base.value());
    let e = Ghost(exp.value() as nat);
    let count: u64 = exp.to_u64();
    let one = T::one();
    proof {
        base.lemma_range();
        exp.lemma_range();
        one.lemma_range();
        lemma_pow0(b@);
        lemma_pow1(b@);
    }
    if count == 0 {
        return Some(one);
    }
    if base.value_is_at_most_one() {
        proof {
            lemma0_pow(e@);
            lemma1_pow(e@);
        }
        return Some(base);
    }
    let mut acc: T = base;
    let mut i: u64 = 1;
    while i < count
        invariant
            1 <= i <= count,
            count == e@,
            e@ == exp.value(),
            b@ == base.value(),
            b@ >= 2,
            acc.value() == pow(b@, i as nat),
        decreases count - i,
    {
        proof {
            reveal(pow);
            assert(pow(b@, (i + 1) as nat) == b@ * pow(b@, i as nat));
            lemma_mul_is_commutative(b@, pow(b@, i as nat));
        }
        match acc.try_mul(base) {
            Some(next) => {
                acc = next;
                i = i + 1;
            },
            None => {
                proof {
                    lemma_pow_increases(b@ as nat, (i + 1) as nat, e@);
                }
                return None;
            },
        }
    }
    proof {
        acc.lemma_range();
    }
    Some(acc)
}

} // verus!

//! Double-precision quantities held as the formulas that yield them.
use vstd::prelude::*;

verus! {

/// A double-precision quantity, held as the formula that yields it.
///
/// The library never rounds: it writes down which operation is applied to which operands, in
/// which order, and whoever needs the number evaluates the formula with the machine's arithmetic.
#[derive(Debug)]
pub enum Quantity {
    /// The double with this bit pattern.
    Bits(u64),
    /// The decimal `units / 10^places`.
    Decimal { units: u64, places: u32 },
    /// A count of rows, vertices or edges.
    Count(u64),
    /// A signed integer.
    Integer(i64),
    Sum(Box<Quantity>, Box<Quantity>),
    Difference(Box<Quantity>, Box<Quantity>),
    Product(Box<Quantity>, Box<Quantity>),
    Quotient(Box<Quantity>, Box<Quantity>),
    Negated(Box<Quantity>),
    /// The larger of two quantities.
    Larger(Box<Quantity>, Box<Quantity>),
    /// The smaller of two quantities.
    Smaller(Box<Quantity>, Box<Quantity>),
    /// The base-two logarithm.
    Log2(Box<Quantity>),
    /// The natural logarithm.
    Ln(Box<Quantity>),
    /// The square root.
    Sqrt(Box<Quantity>),
    /// The quantity without its sign.
    Abs(Box<Quantity>),
    /// The chance that at least one of two independent events happens: `a + b - a * b`.
    Either(Box<Quantity>, Box<Quantity>),
}

/// How one quantity stands to another.
#[derive(Clone, Copy, Debug, PartialEq, Eq, Structural)]
pub enum Compared {
    Less,
    Equal,
    Greater,
    /// One of the two is not a number.
    Unordered,
}

/// The answer that a comparison gives for two quantities.
pub open spec fn compared<F: Fn(&Quantity, &Quantity) -> Compared>(compare: F, a: Quantity, b: Quantity) -> Compared {
    choose|c: Compared| call_ensures(compare, (&a, &b), c)
}

/// A comparison that may be asked about any two quantities and gives one answer for each pair.
pub open spec fn decides<F: Fn(&Quantity, &Quantity) -> Compared>(compare: F) -> bool {
    &&& forall|a: Quantity, b: Quantity| #[trigger] call_requires(compare, (&a, &b))
    &&& forall|a: Quantity, b: Quantity, c: Compared|
        #[trigger] call_ensures(compare, (&a, &b), c) ==> c == compared(compare, a, b)
}

/// The bits that a reading of quantities gives.
pub open spec fn bits_of<B: Fn(&Quantity) -> u64>(bits: B, q: Quantity) -> u64 {
    choose|b: u64| call_ensures(bits, (&q,), b)
}

/// A reading of quantities that may be asked of any and gives one answer for each.
pub open spec fn reads<B: Fn(&Quantity) -> u64>(bits: B) -> bool {
    &&& forall|q: Quantity| #[trigger] call_requires(bits, (&q,))
    &&& forall|q: Quantity, b: u64| #[trigger] call_ensures(bits, (&q,), b) ==> b == bits_of(bits, q)
}

/// How quantities are read as real numbers: what the bit patterns stand for, and the functions that are
/// not made of the four operations.
pub struct Numbers {
    pub bits: spec_fn(u64) -> real,
    pub log2: spec_fn(real) -> real,
    pub ln: spec_fn(real) -> real,
    pub sqrt: spec_fn(real) -> real,
}

/// A power of ten.
pub open spec fn ten_to(n: nat) -> int
    decreases n,
{
    if n == 0 {
        1
    } else {
        10 * ten_to((n - 1) as nat)
    }
}

/// An integer as a real number.
pub open spec fn whole(n: int) -> real {
    n as real
}

/// The real number that a quantity stands for.
pub open spec fn value(m: Numbers, q: Quantity) -> real
    decreases q,
{
    match q {
        Quantity::Bits(b) => (m.bits)(b),
        Quantity::Decimal { units, places } => whole(units as int) / whole(ten_to(places as nat)),
        Quantity::Count(n) => whole(n as int),
        Quantity::Integer(n) => whole(n as int),
        Quantity::Sum(a, b) => value(m, *a) + value(m, *b),
        Quantity::Difference(a, b) => value(m, *a) - value(m, *b),
        Quantity::Product(a, b) => value(m, *a) * value(m, *b),
        Quantity::Quotient(a, b) => value(m, *a) / value(m, *b),
        Quantity::Negated(a) => whole(0) - value(m, *a),
        Quantity::Larger(a, b) => if value(m, *a) >= value(m, *b) {
            value(m, *a)
        } else {
            value(m, *b)
        },
        Quantity::Smaller(a, b) => if value(m, *a) <= value(m, *b) {
            value(m, *a)
        } else {
            value(m, *b)
        },
        Quantity::Log2(a) => (m.log2)(value(m, *a)),
        Quantity::Ln(a) => (m.ln)(value(m, *a)),
        Quantity::Sqrt(a) => (m.sqrt)(value(m, *a)),
        Quantity::Abs(a) => if value(m, *a) >= whole(0) {
            value(m, *a)
        } else {
            whole(0) - value(m, *a)
        },
        Quantity::Either(a, b) => value(m, *a) + value(m, *b) - value(m, *a) * value(m, *b),
    }
}

impl Quantity {
    /// The decimal `units / 10^places`.
    pub open spec fn decimal(units: u64, places: u32) -> Quantity {
        Quantity::Decimal { units, places }
    }

    pub open spec fn sum(a: Quantity, b: Quantity) -> Quantity {
        Quantity::Sum(Box::new(a), Box::new(b))
    }

    pub open spec fn difference(a: Quantity, b: Quantity) -> Quantity {
        Quantity::Difference(Box::new(a), Box::new(b))
    }

    pub open spec fn product(a: Quantity, b: Quantity) -> Quantity {
        Quantity::Product(Box::new(a), Box::new(b))
    }

    pub open spec fn quotient(a: Quantity, b: Quantity) -> Quantity {
        Quantity::Quotient(Box::new(a), Box::new(b))
    }

    pub open spec fn larger(a: Quantity, b: Quantity) -> Quantity {
        Quantity::Larger(Box::new(a), Box::new(b))
    }

    pub open spec fn smaller(a: Quantity, b: Quantity) -> Quantity {
        Quantity::Smaller(Box::new(a), Box::new(b))
    }

    pub open spec fn ln(a: Quantity) -> Quantity {
        Quantity::Ln(Box::new(a))
    }

    pub open spec fn abs(a: Quantity) -> Quantity {
        Quantity::Abs(Box::new(a))
    }

    pub open spec fn sqrt(a: Quantity) -> Quantity {
        Quantity::Sqrt(Box::new(a))
    }

    /// The base-two logarithm, but no less than one.
    pub open spec fn log2_at_least_one(a: Quantity) -> Quantity {
        Self::larger(Quantity::Log2(Box::new(a)), Quantity::Count(1))
    }

    pub fn from_decimal(units: u64, places: u32) -> (r: Quantity)
        ensures
            r == Self::decimal(units, places),
    {
        Quantity::Decimal { units, places }
    }

    pub fn plus(self, other: Quantity) -> (r: Quantity)
        ensures
            r == Self::sum(self, other),
    {
        Quantity::Sum(Box::new(self), Box::new(other))
    }

    pub fn minus(self, other: Quantity) -> (r: Quantity)
        ensures
            r == Self::difference(self, other),
    {
        Quantity::Difference(Box::new(self), Box::new(other))
    }

    pub fn times(self, other: Quantity) -> (r: Quantity)
        ensures
            r == Self::product(self, other),
    {
        Quantity::Product(Box::new(self), Box::new(other))
    }

    pub fn over(self, other: Quantity) -> (r: Quantity)
        ensures
            r == Self::quotient(self, other),
    {
        Quantity::Quotient(Box::new(self), Box::new(other))
    }

    pub fn at_least(self, other: Quantity) -> (r: Quantity)
        ensures
            r == Self::larger(self, other),
    {
        Quantity::Larger(Box::new(self), Box::new(other))
    }

    pub fn at_most(self, other: Quantity) -> (r: Quantity)
        ensures
            r == Self::smaller(self, other),
    {
        Quantity::Smaller(Box::new(self), Box::new(other))
    }

    pub fn either(self, other: Quantity) -> (r: Quantity)
        ensures
            r == Quantity::Either(Box::new(self), Box::new(other)),
    {
        Quantity::Either(Box::new(self), Box::new(other))
    }

    pub fn natural_log(self) -> (r: Quantity)
        ensures
            r == Self::ln(self),
    {
        Quantity::Ln(Box::new(self))
    }

    pub fn absolute(self) -> (r: Quantity)
        ensures
            r == Quantity::abs(self),
    {
        Quantity::Abs(Box::new(self))
    }

    pub fn square_root(self) -> (r: Quantity)
        ensures
            r == Self::sqrt(self),
    {
        Quantity::Sqrt(Box::new(self))
    }

    pub fn log2_floored(self) -> (r: Quantity)
        ensures
            r == Self::log2_at_least_one(self),
    {
        Quantity::Larger(Box::new(Quantity::Log2(Box::new(self))), Box::new(Quantity::Count(1)))
    }
}

impl Clone for Quantity {
    fn clone(&self) -> (r: Self)
        ensures
            r == *self,
        decreases self,
    {
        match self {
            Quantity::Bits(b) => Quantity::Bits(*b),
            Quantity::Decimal { units, places } => Quantity::Decimal { units: *units, places: *places },
            Quantity::Count(n) => Quantity::Count(*n),
            Quantity::Integer(n) => Quantity::Integer(*n),
            Quantity::Sum(a, b) => Quantity::Sum(Box::new((**a).clone()), Box::new((**b).clone())),
            Quantity::Difference(a, b) => Quantity::Difference(Box::new((**a).clone()), Box::new((**b).clone())),
            Quantity::Product(a, b) => Quantity::Product(Box::new((**a).clone()), Box::new((**b).clone())),
            Quantity::Quotient(a, b) => Quantity::Quotient(Box::new((**a).clone()), Box::new((**b).clone())),
            Quantity::Negated(a) => Quantity::Negated(Box::new((**a).clone())),
            Quantity::Larger(a, b) => Quantity::Larger(Box::new((**a).clone()), Box::new((**b).clone())),
            Quantity::Smaller(a, b) => Quantity::Smaller(Box::new((**a).clone()), Box::new((**b).clone())),
            Quantity::Log2(a) => Quantity::Log2(Box::new((**a).clone())),
            Quantity::Ln(a) => Quantity::Ln(Box::new((**a).clone())),
            Quantity::Sqrt(a) => Quantity::Sqrt(Box::new((**a).clone())),
            Quantity::Abs(a) => Quantity::Abs(Box::new((**a).clone())),
            Quantity::Either(a, b) => Quantity::Either(Box::new((**a).clone()), Box::new((**b).clone())),
        }
    }
}

} // verus!

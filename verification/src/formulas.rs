//! The formulas behind the image passes, in terms of the basic operations of
//! some scalar arithmetic.
use crate::median::{float_rank, rank_of};
use crate::numerics::Numerics;
use vstd::prelude::*;

verus! {

/// The basic operations of a scalar arithmetic (that of single precision
/// floats in the command line tool). Nothing is assumed about an
/// implementation.
pub trait Scalar: Sync + Sized {
    /// A number.
    type T: Copy + Send + Sync;

    /// The number nearest to `num / den`.
    fn constant(&self, num: i64, den: u32) -> Self::T;

    /// An index as a number.
    fn of_index(&self, i: usize) -> Self::T;

    /// A byte as a number.
    fn of_byte(&self, b: u8) -> Self::T;

    /// `a + b`.
    fn plus(&self, a: Self::T, b: Self::T) -> Self::T;

    /// `a - b`.
    fn minus(&self, a: Self::T, b: Self::T) -> Self::T;

    /// `a * b`.
    fn times(&self, a: Self::T, b: Self::T) -> Self::T;

    /// `a / b`.
    fn over(&self, a: Self::T, b: Self::T) -> Self::T;

    /// `-a`.
    fn opposite(&self, a: Self::T) -> Self::T;

    /// Whether `a < b`.
    fn less(&self, a: Self::T, b: Self::T) -> bool;

    /// Whether `a <= b`.
    fn at_most(&self, a: Self::T, b: Self::T) -> bool;

    /// `a` rounded down to an index.
    fn whole(&self, a: Self::T) -> usize;

    /// `a` rounded to the nearest byte.
    fn nearest_byte(&self, a: Self::T) -> u8;

    /// Whether `a` has a place in the order of numbers.
    fn is_number(&self, a: Self::T) -> bool;

    /// The bit pattern of `a`: sign and magnitude.
    fn bits(&self, a: Self::T) -> u32
        requires
            call_ensures(Self::is_number, (self, a), true),
    ;
}

/// A formula.
pub enum Expr<T> {
    /// A given number.
    Given(T),
    /// A constant.
    Const(i64, u32),
    /// An index.
    Index(usize),
    /// A byte.
    Byte(u8),
    /// A sum.
    Plus(Box<Expr<T>>, Box<Expr<T>>),
    /// A difference.
    Minus(Box<Expr<T>>, Box<Expr<T>>),
    /// A product.
    Times(Box<Expr<T>>, Box<Expr<T>>),
    /// A quotient.
    Over(Box<Expr<T>>, Box<Expr<T>>),
    /// The opposite.
    Opposite(Box<Expr<T>>),
    /// The magnitude.
    Abs(Box<Expr<T>>),
    /// The first, kept from falling below the second.
    AtLeast(Box<Expr<T>>, Box<Expr<T>>),
    /// The first, kept from rising above the second.
    AtMost(Box<Expr<T>>, Box<Expr<T>>),
}

impl<T> Expr<T> {
    /// `v` is a value of the formula: each operation was carried out on values
    /// of its operands.
    pub open spec fn gives<S: Scalar<T = T>>(self, s: &S, v: T) -> bool
        decreases self,
    {
        match self {
            Expr::Given(x) => v == x,
            Expr::Const(num, den) => call_ensures(S::constant, (s, num, den), v),
            Expr::Index(i) => call_ensures(S::of_index, (s, i), v),
            Expr::Byte(b) => call_ensures(S::of_byte, (s, b), v),
            Expr::Plus(a, b) => exists|x: T, y: T|
                a.gives(s, x) && b.gives(s, y) && #[trigger] call_ensures(S::plus, (s, x, y), v),
            Expr::Minus(a, b) => exists|x: T, y: T|
                a.gives(s, x) && b.gives(s, y) && #[trigger] call_ensures(S::minus, (s, x, y), v),
            Expr::Times(a, b) => exists|x: T, y: T|
                a.gives(s, x) && b.gives(s, y) && #[trigger] call_ensures(S::times, (s, x, y), v),
            Expr::Over(a, b) => exists|x: T, y: T|
                a.gives(s, x) && b.gives(s, y) && #[trigger] call_ensures(S::over, (s, x, y), v),
            Expr::Opposite(a) => exists|x: T|
                a.gives(s, x) && #[trigger] call_ensures(S::opposite, (s, x), v),
            Expr::Abs(a) => exists|x: T| a.gives(s, x) && #[trigger] is_abs(s, x, v),
            Expr::AtLeast(a, b) => exists|x: T, y: T, below: bool|
                {
                    &&& a.gives(s, x)
                    &&& b.gives(s, y)
                    &&& #[trigger] call_ensures(S::less, (s, x, y), below)
                    &&& v == (if below {
                        y
                    } else {
                        x
                    })
                },
            Expr::AtMost(a, b) => exists|x: T, y: T, above: bool|
                {
                    &&& a.gives(s, x)
                    &&& b.gives(s, y)
                    &&& #[trigger] call_ensures(S::less, (s, y, x), above)
                    &&& v == (if above {
                        y
                    } else {
                        x
                    })
                },
        }
    }
}

/// `v` is the magnitude of `x`.
pub open spec fn is_abs<S: Scalar>(s: &S, x: S::T, v: S::T) -> bool {
    exists|zero: S::T|
        call_ensures(S::constant, (s, 0i64, 1u32), zero) && #[trigger] is_abs_about(s, x, zero, v)
}

/// `v` is `x`, or its opposite where that is less than `zero`.
pub open spec fn is_abs_about<S: Scalar>(s: &S, x: S::T, zero: S::T, v: S::T) -> bool {
    exists|below: bool| #[trigger]
        call_ensures(S::less, (s, x, zero), below) && if below {
            call_ensures(S::opposite, (s, x), v)
        } else {
            v == x
        }
}

/// `a + b`.
pub open spec fn sum<T>(a: Expr<T>, b: Expr<T>) -> Expr<T> {
    Expr::Plus(Box::new(a), Box::new(b))
}

/// `a - b`.
pub open spec fn difference<T>(a: Expr<T>, b: Expr<T>) -> Expr<T> {
    Expr::Minus(Box::new(a), Box::new(b))
}

/// `a * b`.
pub open spec fn product<T>(a: Expr<T>, b: Expr<T>) -> Expr<T> {
    Expr::Times(Box::new(a), Box::new(b))
}

/// `a / b`.
pub open spec fn quotient<T>(a: Expr<T>, b: Expr<T>) -> Expr<T> {
    Expr::Over(Box::new(a), Box::new(b))
}

/// `-a`.
pub open spec fn opposite<T>(a: Expr<T>) -> Expr<T> {
    Expr::Opposite(Box::new(a))
}

/// `|a|`.
pub open spec fn magnitude<T>(a: Expr<T>) -> Expr<T> {
    Expr::Abs(Box::new(a))
}

/// `a`, but at least `lo`.
pub open spec fn at_least<T>(a: Expr<T>, lo: Expr<T>) -> Expr<T> {
    Expr::AtLeast(Box::new(a), Box::new(lo))
}

/// `a`, but at most `hi`.
pub open spec fn at_most<T>(a: Expr<T>, hi: Expr<T>) -> Expr<T> {
    Expr::AtMost(Box::new(a), Box::new(hi))
}

/// `a`, kept between `lo` and `hi`.
pub open spec fn clamped<T>(a: Expr<T>, lo: Expr<T>, hi: Expr<T>) -> Expr<T> {
    at_most(at_least(a, lo), hi)
}

/// Whether one formula is less than another came out as `yes`.
pub open spec fn is_less<S: Scalar>(s: &S, a: Expr<S::T>, b: Expr<S::T>, yes: bool) -> bool {
    exists|x: S::T, y: S::T|
        a.gives(s, x) && b.gives(s, y) && #[trigger] call_ensures(S::less, (s, x, y), yes)
}

/// Brightness: `0.299 r + 0.587 g + 0.114 b`.
pub open spec fn luma_expr<T>(r: u8, g: u8, b: u8) -> Expr<T> {
    sum(
        sum(
            product(Expr::Const(299, 1000), Expr::Byte(r)),
            product(Expr::Const(587, 1000), Expr::Byte(g)),
        ),
        product(Expr::Const(114, 1000), Expr::Byte(b)),
    )
}

/// Gaussian weights: `(a + 4 b + 6 c + 4 d + e) / 16`.
pub open spec fn gauss_expr<T>(a: T, b: T, c: T, d: T, e: T) -> Expr<T> {
    let outer = Expr::Const(1, 16);
    let inner = Expr::Const(1, 4);
    let centre = Expr::Const(3, 8);
    let sum1 = sum(Expr::Const(0, 1), product(Expr::Given(a), outer));
    let sum2 = sum(sum1, product(Expr::Given(b), inner));
    let sum3 = sum(sum2, product(Expr::Given(c), centre));
    let sum4 = sum(sum3, product(Expr::Given(d), inner));
    sum(sum4, product(Expr::Given(e), outer))
}

/// The last of `n` positions.
pub open spec fn limit_expr<T>(n: usize) -> Expr<T> {
    difference(Expr::Index(n), Expr::Const(1, 1))
}

/// A position, kept between the first and the last of `n`.
pub open spec fn position_expr<T>(p: T, n: usize) -> Expr<T> {
    clamped(Expr::Given(p), Expr::Const(0, 1), limit_expr(n))
}

/// Just before the last of `n` positions.
pub open spec fn short_limit_expr<T>(n: usize) -> Expr<T> {
    difference(Expr::Index(n), Expr::Const(1001, 1000))
}

/// `one - f`.
pub open spec fn rest_expr<T>(f: T) -> Expr<T> {
    difference(Expr::Const(1, 1), Expr::Given(f))
}

/// Mix of two numbers: `a (1 - f) + b f`.
pub open spec fn mix_expr<T>(a: Expr<T>, b: Expr<T>, f: T) -> Expr<T> {
    sum(product(a, rest_expr(f)), product(b, Expr::Given(f)))
}

/// Mix of four numbers: first along the rows, then across them.
pub open spec fn bilinear_expr<T>(s00: T, s10: T, s01: T, s11: T, fx: T, fy: T) -> Expr<T> {
    mix_expr(
        mix_expr(Expr::Given(s00), Expr::Given(s10), fx),
        mix_expr(Expr::Given(s01), Expr::Given(s11), fx),
        fy,
    )
}

/// A diagonal entry of the normal equations, with a little added to stay
/// stable in flat regions.
pub open spec fn damped<T>(a: T) -> Expr<T> {
    sum(Expr::Given(a), Expr::Const(1, 1000))
}

/// The determinant of the normal equations.
pub open spec fn det_expr<T>(xx: T, yy: T, xy: T) -> Expr<T> {
    difference(product(damped(xx), damped(yy)), product(Expr::Given(xy), Expr::Given(xy)))
}

/// At most five cells either way.
pub open spec fn bounded<T>(e: Expr<T>) -> Expr<T> {
    clamped(e, opposite(Expr::Const(5, 1)), Expr::Const(5, 1))
}

/// The horizontal update, by Cramer's rule.
pub open spec fn raw_u_expr<T>(xx: T, yy: T, xy: T, xt: T, yt: T) -> Expr<T> {
    quotient(
        difference(
            product(damped(yy), opposite(Expr::Given(xt))),
            product(Expr::Given(xy), opposite(Expr::Given(yt))),
        ),
        det_expr(xx, yy, xy),
    )
}

/// The vertical update, by Cramer's rule.
pub open spec fn raw_v_expr<T>(xx: T, yy: T, xy: T, xt: T, yt: T) -> Expr<T> {
    quotient(
        sum(
            product(opposite(Expr::Given(xy)), opposite(Expr::Given(xt))),
            product(damped(xx), opposite(Expr::Given(yt))),
        ),
        det_expr(xx, yy, xy),
    )
}

/// A shutter angle, kept between 0 and 360 degrees.
pub open spec fn angle_expr<T>(shutter: T) -> Expr<T> {
    clamped(Expr::Given(shutter), Expr::Const(0, 1), Expr::Const(360, 1))
}

/// Half the part of a frame interval that a shutter angle exposes.
pub open spec fn span_expr<T>(shutter: T) -> Expr<T> {
    product(quotient(angle_expr(shutter), Expr::Const(360, 1)), Expr::Const(1, 2))
}

/// `a * a`.
pub open spec fn square_expr<T>(a: T) -> Expr<T> {
    product(Expr::Given(a), Expr::Given(a))
}

/// The squared lengths of the forward and the backward motion, together.
pub open spec fn travel_expr<T>(fu: T, fv: T, bu: T, bv: T) -> Expr<T> {
    sum(sum(sum(square_expr(fu), square_expr(fv)), square_expr(bu)), square_expr(bv))
}

/// How far tap `i` of `n` lies from the middle of the exposure, which reaches
/// from `-1` to `1`.
pub open spec fn tap_expr<T>(i: usize, n: usize) -> Expr<T> {
    magnitude(
        difference(
            product(
                quotient(sum(Expr::Index(i), Expr::Const(1, 2)), Expr::Index(n)),
                Expr::Const(2, 1),
            ),
            Expr::Const(1, 1),
        ),
    )
}

/// A byte weighed by two factors.
pub open spec fn weighed<T>(b: u8, x: Expr<T>, y: Expr<T>) -> Expr<T> {
    product(Expr::Byte(b), product(x, y))
}

/// Mix of four bytes.
pub open spec fn blend_expr<T>(b00: u8, b10: u8, b01: u8, b11: u8, fx: T, fy: T) -> Expr<T> {
    sum(
        sum(
            sum(
                weighed(b00, rest_expr(fx), rest_expr(fy)),
                weighed(b10, Expr::Given(fx), rest_expr(fy)),
            ),
            weighed(b01, rest_expr(fx), Expr::Given(fy)),
        ),
        weighed(b11, Expr::Given(fx), Expr::Given(fy)),
    )
}

/// `a / n`, by way of the inverse.
pub open spec fn mean_expr<T>(a: T, n: usize) -> Expr<T> {
    product(Expr::Given(a), quotient(Expr::Const(1, 1), Expr::Index(n)))
}

/// A position and the fraction beyond it that make up a value of a formula.
pub open spec fn is_cell<S: Scalar>(s: &S, e: Expr<S::T>, i: usize, f: S::T) -> bool {
    exists|p: S::T|
        {
            &&& e.gives(s, p)
            &&& #[trigger] call_ensures(S::whole, (s, p), i)
            &&& difference(Expr::Given(p), Expr::Index(i)).gives(s, f)
        }
}

/// A number together with the formula that it is a value of.
struct Num<T> {
    v: T,
    e: Ghost<Expr<T>>,
}

impl<T: Copy> Num<T> {
    spec fn ok<S: Scalar<T = T>>(self, s: &S) -> bool {
        self.e@.gives(s, self.v)
    }

    fn plus<S: Scalar<T = T>>(&self, s: &S, o: &Num<T>) -> (r: Num<T>)
        requires
            self.ok(s),
            o.ok(s),
        ensures
            r.ok(s),
            r.e@ == sum(self.e@, o.e@),
    {
        let v = s.plus(self.v, o.v);
        let ghost e = sum(self.e@, o.e@);
        Num { v, e: Ghost(e) }
    }

    fn minus<S: Scalar<T = T>>(&self, s: &S, o: &Num<T>) -> (r: Num<T>)
        requires
            self.ok(s),
            o.ok(s),
        ensures
            r.ok(s),
            r.e@ == difference(self.e@, o.e@),
    {
        let v = s.minus(self.v, o.v);
        let ghost e = difference(self.e@, o.e@);
        Num { v, e: Ghost(e) }
    }

    fn times<S: Scalar<T = T>>(&self, s: &S, o: &Num<T>) -> (r: Num<T>)
        requires
            self.ok(s),
            o.ok(s),
        ensures
            r.ok(s),
            r.e@ == product(self.e@, o.e@),
    {
        let v = s.times(self.v, o.v);
        let ghost e = product(self.e@, o.e@);
        Num { v, e: Ghost(e) }
    }

    fn over<S: Scalar<T = T>>(&self, s: &S, o: &Num<T>) -> (r: Num<T>)
        requires
            self.ok(s),
            o.ok(s),
        ensures
            r.ok(s),
            r.e@ == quotient(self.e@, o.e@),
    {
        let v = s.over(self.v, o.v);
        let ghost e = quotient(self.e@, o.e@);
        Num { v, e: Ghost(e) }
    }

    fn opposite<S: Scalar<T = T>>(&self, s: &S) -> (r: Num<T>)
        requires
            self.ok(s),
        ensures
            r.ok(s),
            r.e@ == opposite(self.e@),
    {
        let v = s.opposite(self.v);
        let ghost e = opposite(self.e@);
        Num { v, e: Ghost(e) }
    }

    fn abs<S: Scalar<T = T>>(&self, s: &S) -> (r: Num<T>)
        requires
            self.ok(s),
        ensures
            r.ok(s),
            r.e@ == magnitude(self.e@),
    {
        let zero = s.constant(0, 1);
        let below: bool = s.less(self.v, zero);
        let v = if below {
            s.opposite(self.v)
        } else {
            self.v
        };
        let ghost e = magnitude(self.e@);
        proof {
            assert(call_ensures(S::less, (s, self.v, zero), below));
            assert(is_abs_about(s, self.v, zero, v));
            assert(is_abs(s, self.v, v));
        }
        Num { v, e: Ghost(e) }
    }

    fn at_least<S: Scalar<T = T>>(&self, s: &S, lo: &Num<T>) -> (r: Num<T>)
        requires
            self.ok(s),
            lo.ok(s),
        ensures
            r.ok(s),
            r.e@ == at_least(self.e@, lo.e@),
    {
        let below: bool = s.less(self.v, lo.v);
        assert(call_ensures(S::less, (s, self.v, lo.v), below));
        let v = if below {
            lo.v
        } else {
            self.v
        };
        let ghost e = at_least(self.e@, lo.e@);
        Num { v, e: Ghost(e) }
    }

    fn at_most<S: Scalar<T = T>>(&self, s: &S, hi: &Num<T>) -> (r: Num<T>)
        requires
            self.ok(s),
            hi.ok(s),
        ensures
            r.ok(s),
            r.e@ == at_most(self.e@, hi.e@),
    {
        let above: bool = s.less(hi.v, self.v);
        assert(call_ensures(S::less, (s, hi.v, self.v), above));
        let v = if above {
            hi.v
        } else {
            self.v
        };
        let ghost e = at_most(self.e@, hi.e@);
        Num { v, e: Ghost(e) }
    }

    fn less<S: Scalar<T = T>>(&self, s: &S, o: &Num<T>) -> (yes: bool)
        requires
            self.ok(s),
            o.ok(s),
        ensures
            is_less(s, self.e@, o.e@, yes),
    {
        s.less(self.v, o.v)
    }
}

fn given<S: Scalar>(s: &S, v: S::T) -> (r: Num<S::T>)
    ensures
        r.ok(s),
        r.e@ == Expr::Given(v),
{
    Num { v, e: Ghost(Expr::Given(v)) }
}

fn constant<S: Scalar>(s: &S, num: i64, den: u32) -> (r: Num<S::T>)
    ensures
        r.ok(s),
        r.e@ == Expr::<S::T>::Const(num, den),
{
    Num { v: s.constant(num, den), e: Ghost(Expr::Const(num, den)) }
}

fn from_index<S: Scalar>(s: &S, i: usize) -> (r: Num<S::T>)
    ensures
        r.ok(s),
        r.e@ == Expr::<S::T>::Index(i),
{
    Num { v: s.of_index(i), e: Ghost(Expr::Index(i)) }
}

fn from_byte<S: Scalar>(s: &S, b: u8) -> (r: Num<S::T>)
    ensures
        r.ok(s),
        r.e@ == Expr::<S::T>::Byte(b),
{
    Num { v: s.of_byte(b), e: Ghost(Expr::Byte(b)) }
}

fn rest<S: Scalar>(s: &S, f: S::T) -> (r: Num<S::T>)
    ensures
        r.ok(s),
        r.e@ == rest_expr(f),
{
    constant(s, 1, 1).minus(s, &given(s, f))
}

fn limit<S: Scalar>(s: &S, n: usize) -> (r: Num<S::T>)
    ensures
        r.ok(s),
        r.e@ == limit_expr::<S::T>(n),
{
    from_index(s, n).minus(s, &constant(s, 1, 1))
}

fn short_limit<S: Scalar>(s: &S, n: usize) -> (r: Num<S::T>)
    ensures
        r.ok(s),
        r.e@ == short_limit_expr::<S::T>(n),
{
    from_index(s, n).minus(s, &constant(s, 1001, 1000))
}

fn mix<S: Scalar>(s: &S, a: &Num<S::T>, b: &Num<S::T>, f: S::T) -> (r: Num<S::T>)
    requires
        a.ok(s),
        b.ok(s),
    ensures
        r.ok(s),
        r.e@ == mix_expr(a.e@, b.e@, f),
{
    a.times(s, &rest(s, f)).plus(s, &b.times(s, &given(s, f)))
}

fn split<S: Scalar>(s: &S, p: &Num<S::T>) -> (r: (usize, S::T))
    requires
        p.ok(s),
    ensures
        is_cell(s, p.e@, r.0, r.1),
{
    let i: usize = s.whole(p.v);
    let f = given(s, p.v).minus(s, &from_index(s, i));
    (i, f.v)
}

fn bound<S: Scalar>(s: &S, a: &Num<S::T>) -> (r: Num<S::T>)
    requires
        a.ok(s),
    ensures
        r.ok(s),
        r.e@ == bounded(a.e@),
{
    a.at_least(s, &constant(s, 5, 1).opposite(s)).at_most(s, &constant(s, 5, 1))
}

fn weigh<S: Scalar>(s: &S, b: u8, x: &Num<S::T>, y: &Num<S::T>) -> (r: Num<S::T>)
    requires
        x.ok(s),
        y.ok(s),
    ensures
        r.ok(s),
        r.e@ == weighed(b, x.e@, y.e@),
{
    from_byte(s, b).times(s, &x.times(s, y))
}

fn square<S: Scalar>(s: &S, a: S::T) -> (r: Num<S::T>)
    ensures
        r.ok(s),
        r.e@ == square_expr(a),
{
    given(s, a).times(s, &given(s, a))
}

/// The formulas of the image passes over a scalar arithmetic.
pub struct Formulas<S>(pub S);

impl<S: Scalar> Numerics for Formulas<S> {
    type T = S::T;

    fn zero(&self) -> (r: S::T)
        ensures
            Expr::Const(0, 1).gives(&self.0, r),
    {
        constant(&self.0, 0, 1).v
    }

    fn plus(&self, a: S::T, b: S::T) -> (r: S::T)
        ensures
            sum(Expr::Given(a), Expr::Given(b)).gives(&self.0, r),
    {
        let s = &self.0;
        given(s, a).plus(s, &given(s, b)).v
    }

    fn minus(&self, a: S::T, b: S::T) -> (r: S::T)
        ensures
            difference(Expr::Given(a), Expr::Given(b)).gives(&self.0, r),
    {
        let s = &self.0;
        given(s, a).minus(s, &given(s, b)).v
    }

    fn times(&self, a: S::T, b: S::T) -> (r: S::T)
        ensures
            product(Expr::Given(a), Expr::Given(b)).gives(&self.0, r),
    {
        let s = &self.0;
        given(s, a).times(s, &given(s, b)).v
    }

    fn negated(&self, a: S::T) -> (r: S::T)
        ensures
            opposite(Expr::Given(a)).gives(&self.0, r),
    {
        let s = &self.0;
        given(s, a).opposite(s).v
    }

    fn doubled(&self, a: S::T) -> (r: S::T)
        ensures
            product(Expr::Given(a), Expr::Const(2, 1)).gives(&self.0, r),
    {
        let s = &self.0;
        given(s, a).times(s, &constant(s, 2, 1)).v
    }

    fn luma(&self, r: u8, g: u8, b: u8) -> (y: S::T)
        ensures
            luma_expr(r, g, b).gives(&self.0, y),
    {
        let s = &self.0;
        let red = constant(s, 299, 1000).times(s, &from_byte(s, r));
        let green = constant(s, 587, 1000).times(s, &from_byte(s, g));
        let blue = constant(s, 114, 1000).times(s, &from_byte(s, b));
        red.plus(s, &green).plus(s, &blue).v
    }

    fn gauss5(&self, a: S::T, b: S::T, c: S::T, d: S::T, e: S::T) -> (r: S::T)
        ensures
            gauss_expr(a, b, c, d, e).gives(&self.0, r),
    {
        let s = &self.0;
        let outer = constant(s, 1, 16);
        let inner = constant(s, 1, 4);
        let centre = constant(s, 3, 8);
        let sum1 = constant(s, 0, 1).plus(s, &given(s, a).times(s, &outer));
        let sum2 = sum1.plus(s, &given(s, b).times(s, &inner));
        let sum3 = sum2.plus(s, &given(s, c).times(s, &centre));
        let sum4 = sum3.plus(s, &given(s, d).times(s, &inner));
        sum4.plus(s, &given(s, e).times(s, &outer)).v
    }

    fn slope(&self, ahead: S::T, behind: S::T) -> (r: S::T)
        ensures
            product(
                Expr::Const(1, 2),
                difference(Expr::Given(ahead), Expr::Given(behind)),
            ).gives(&self.0, r),
    {
        let s = &self.0;
        constant(s, 1, 2).times(s, &given(s, ahead).minus(s, &given(s, behind))).v
    }

    fn shifted(&self, i: usize, d: S::T) -> (r: S::T)
        ensures
            sum(Expr::Index(i), Expr::Given(d)).gives(&self.0, r),
    {
        let s = &self.0;
        from_index(s, i).plus(s, &given(s, d)).v
    }

    fn twice(&self, i: usize) -> (r: S::T)
        ensures
            product(Expr::Index(i), Expr::Const(2, 1)).gives(&self.0, r),
    {
        let s = &self.0;
        from_index(s, i).times(s, &constant(s, 2, 1)).v
    }

    fn half(&self, i: usize) -> (r: S::T)
        ensures
            product(Expr::Index(i), Expr::Const(1, 2)).gives(&self.0, r),
    {
        let s = &self.0;
        from_index(s, i).times(s, &constant(s, 1, 2)).v
    }

    fn cell(&self, p: S::T, n: usize) -> (r: (usize, S::T))
        ensures
            is_cell(&self.0, position_expr(p, n), r.0, r.1),
    {
        let s = &self.0;
        let low = given(s, p).at_least(s, &constant(s, 0, 1));
        split(s, &low.at_most(s, &limit(s, n)))
    }

    fn cell_below(&self, p: S::T, n: usize) -> (r: (usize, S::T))
        ensures
            is_cell(&self.0, at_most(Expr::Given(p), short_limit_expr(n)), r.0, r.1),
    {
        let s = &self.0;
        split(s, &given(s, p).at_most(s, &short_limit(s, n)))
    }

    fn bilinear(
        &self,
        s00: S::T,
        s10: S::T,
        s01: S::T,
        s11: S::T,
        fx: S::T,
        fy: S::T,
    ) -> (r: S::T)
        ensures
            bilinear_expr(s00, s10, s01, s11, fx, fy).gives(&self.0, r),
    {
        let s = &self.0;
        let upper = mix(s, &given(s, s00), &given(s, s10), fx);
        let lower = mix(s, &given(s, s01), &given(s, s11), fx);
        mix(s, &upper, &lower, fy).v
    }

    fn solve(
        &self,
        xx: S::T,
        yy: S::T,
        xy: S::T,
        xt: S::T,
        yt: S::T,
    ) -> (r: Option<(S::T, S::T)>)
        ensures
            is_less(
                &self.0,
                magnitude(det_expr(xx, yy, xy)),
                Expr::Const(1, 1_000_000_000),
                r is None,
            ),
            r matches Some(d) ==> bounded(raw_u_expr(xx, yy, xy, xt, yt)).gives(&self.0, d.0)
                && bounded(raw_v_expr(xx, yy, xy, xt, yt)).gives(&self.0, d.1),
    {
        let s = &self.0;
        let a00 = given(s, xx).plus(s, &constant(s, 1, 1000));
        let a11 = given(s, yy).plus(s, &constant(s, 1, 1000));
        let a01 = given(s, xy);
        let det = a00.times(s, &a11).minus(s, &a01.times(s, &a01));
        if det.abs(s).less(s, &constant(s, 1, 1_000_000_000)) {
            return None;
        }
        let bx = given(s, xt).opposite(s);
        let by = given(s, yt).opposite(s);
        let du = a11.times(s, &bx).minus(s, &a01.times(s, &by)).over(s, &det);
        let dv = a01.opposite(s).times(s, &bx).plus(s, &a00.times(s, &by)).over(s, &det);
        Some((bound(s, &du).v, bound(s, &dv).v))
    }

    fn is_ordered(&self, a: S::T) -> (r: bool)
        ensures
            call_ensures(S::is_number, (&self.0, a), r),
    {
        self.0.is_number(a)
    }

    fn rank(&self, a: S::T) -> (r: i64)
        ensures
            exists|bits: u32| #[trigger]
                call_ensures(S::bits, (&self.0, a), bits) && r == rank_of(bits),
    {
        float_rank(self.0.bits(a))
    }

    fn shutter_closed(&self, shutter: S::T) -> (r: bool)
        ensures
            exists|zero: S::T|
                call_ensures(S::constant, (&self.0, 0i64, 1u32), zero) && #[trigger] call_ensures(
                    S::at_most,
                    (&self.0, shutter, zero),
                    r,
                ),
    {
        let zero = self.0.constant(0, 1);
        self.0.at_most(shutter, zero)
    }

    fn span(&self, shutter: S::T) -> (r: S::T)
        ensures
            span_expr(shutter).gives(&self.0, r),
    {
        let s = &self.0;
        let open = given(s, shutter).at_least(s, &constant(s, 0, 1)).at_most(
            s,
            &constant(s, 360, 1),
        );
        open.over(s, &constant(s, 360, 1)).times(s, &constant(s, 1, 2)).v
    }

    fn is_still(&self, fu: S::T, fv: S::T, bu: S::T, bv: S::T) -> (r: bool)
        ensures
            is_less(&self.0, travel_expr(fu, fv, bu, bv), Expr::Const(1, 10_000), r),
    {
        let s = &self.0;
        let ahead = square(s, fu).plus(s, &square(s, fv));
        let all = ahead.plus(s, &square(s, bu)).plus(s, &square(s, bv));
        all.less(s, &constant(s, 1, 10_000))
    }

    fn tap_offset(&self, i: usize, n: usize, d: S::T) -> (r: S::T)
        ensures
            product(tap_expr(i, n), Expr::Given(d)).gives(&self.0, r),
    {
        let s = &self.0;
        let part = from_index(s, i).plus(s, &constant(s, 1, 2)).over(s, &from_index(s, n));
        let t = part.times(s, &constant(s, 2, 1)).minus(s, &constant(s, 1, 1));
        t.abs(s).times(s, &given(s, d)).v
    }

    fn blend_bytes(
        &self,
        b00: u8,
        b10: u8,
        b01: u8,
        b11: u8,
        fx: S::T,
        fy: S::T,
    ) -> (r: S::T)
        ensures
            blend_expr(b00, b10, b01, b11, fx, fy).gives(&self.0, r),
    {
        let s = &self.0;
        let (x1, y1) = (given(s, fx), given(s, fy));
        let (x0, y0) = (rest(s, fx), rest(s, fy));
        let upper = weigh(s, b00, &x0, &y0).plus(s, &weigh(s, b10, &x1, &y0));
        upper.plus(s, &weigh(s, b01, &x0, &y1)).plus(s, &weigh(s, b11, &x1, &y1)).v
    }

    fn mean_byte(&self, total: S::T, n: usize) -> (r: u8)
        ensures
            exists|mean: S::T|
                mean_expr(total, n).gives(&self.0, mean) && #[trigger] call_ensures(
                    S::nearest_byte,
                    (&self.0, mean),
                    r,
                ),
    {
        let s = &self.0;
        let mean = given(s, total).times(s, &constant(s, 1, 1).over(s, &from_index(s, n)));
        s.nearest_byte(mean.v)
    }
}

} // verus!

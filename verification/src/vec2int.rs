//! Two-dimensional integer vectors.

use vstd::prelude::*;
use vstd::std_specs::convert::FromSpecImpl;
use vstd::std_specs::ops::{AddSpecImpl, DivSpecImpl, MulSpecImpl, SubSpecImpl};

verus! {

/// One of the two axes of the plane.
#[derive(Clone, Copy, Debug, PartialEq, Eq, Structural, Hash)]
pub enum Axis {
    X,
    Y,
}

/// A vector of two `i32` components.
#[derive(Clone, Copy, Debug, PartialEq, Eq, Structural, Hash)]
pub struct Vec2Int {
    pub x: i32,
    pub y: i32,
}

/// `v` is a value of `i32`.
pub open spec fn fits_i32(v: int) -> bool {
    i32::MIN <= v <= i32::MAX
}

/// The distance of `v` from zero.
pub open spec fn magnitude(v: int) -> int {
    if v < 0 {
        -v
    } else {
        v
    }
}

/// The quotient of `a` by `b` rounded toward zero: the quotient of the
/// magnitudes, negative where the signs differ.
pub open spec fn truncating_div(a: int, b: int) -> int {
    let quotient = magnitude(a) / magnitude(b);
    if (a < 0) == (b < 0) {
        quotient
    } else {
        -quotient
    }
}

/// `a / b` can be computed in `i32`: the divisor is not zero and the
/// quotient is not that of the least value by minus one.
pub open spec fn can_divide(a: i32, b: i32) -> bool {
    b != 0 && !(a == i32::MIN && b == -1)
}

/// `v` limited to at least `low` and then to at most `high`.
pub open spec fn clamped(v: i32, low: i32, high: i32) -> i32 {
    let raised = if v < low { low } else { v };
    if raised > high { high } else { raised }
}

/// The character of the decimal digit `d`.
pub open spec fn digit_char(d: int) -> char {
    if d == 0 {
        '0'
    } else if d == 1 {
        '1'
    } else if d == 2 {
        '2'
    } else if d == 3 {
        '3'
    } else if d == 4 {
        '4'
    } else if d == 5 {
        '5'
    } else if d == 6 {
        '6'
    } else if d == 7 {
        '7'
    } else if d == 8 {
        '8'
    } else {
        '9'
    }
}

/// The decimal digits of `n`, the most significant first, without leading
/// zeros; zero is the single digit `0`.
pub open spec fn decimal_digits(n: nat) -> Seq<char>
    decreases n,
{
    if n < 10 {
        seq![digit_char(n as int)]
    } else {
        decimal_digits(n / 10).push(digit_char((n % 10) as int))
    }
}

/// The number `v` in decimal: a minus sign where it is negative, then the
/// digits of its magnitude.
pub open spec fn decimal_text(v: int) -> Seq<char> {
    if v < 0 {
        seq!['-'] + decimal_digits((-v) as nat)
    } else {
        decimal_digits(v as nat)
    }
}

/// The text of one decimal digit.
fn digit_str(d: u32) -> (text: &'static str)
    requires
        d < 10,
    ensures
        text@ == seq![digit_char(d as int)],
{
    proof {
        reveal_strlit("0");
        reveal_strlit("1");
        reveal_strlit("2");
        reveal_strlit("3");
        reveal_strlit("4");
        reveal_strlit("5");
        reveal_strlit("6");
        reveal_strlit("7");
        reveal_strlit("8");
        reveal_strlit("9");
    }
    let text = if d == 0 {
        "0"
    } else if d == 1 {
        "1"
    } else if d == 2 {
        "2"
    } else if d == 3 {
        "3"
    } else if d == 4 {
        "4"
    } else if d == 5 {
        "5"
    } else if d == 6 {
        "6"
    } else if d == 7 {
        "7"
    } else if d == 8 {
        "8"
    } else {
        "9"
    };
    assert(text@ =~= seq![digit_char(d as int)]);
    text
}

/// Writes `v` in decimal.
pub fn decimal_string(v: i32) -> (text: String)
    ensures
        text@ == decimal_text(v as int),
{
    let magnitude: u32 = if v < 0 {
        (-(v as i64)) as u32
    } else {
        v as u32
    };
    let mut rest: u32 = magnitude;
    let mut tail = String::new();
    while rest >= 10
        invariant
            decimal_digits(magnitude as nat) == decimal_digits(rest as nat) + tail@,
        decreases rest,
    {
        let digit = digit_str(rest % 10);
        let longer = String::from_str(digit).concat(tail.as_str());
        proof {
            let front = decimal_digits((rest / 10) as nat);
            let last = digit_char((rest % 10) as int);
            assert(decimal_digits(rest as nat) == front.push(last));
            assert(front.push(last) + tail@ =~= front + (seq![last] + tail@));
        }
        tail = longer;
        rest = rest / 10;
    }
    let digits = String::from_str(digit_str(rest)).concat(tail.as_str());
    if v < 0 {
        proof {
            reveal_strlit("-");
        }
        let signed = String::from_str("-").concat(digits.as_str());
        assert(signed@ =~= seq!['-'] + decimal_digits(magnitude as nat));
        signed
    } else {
        digits
    }
}

/// The value of the low 32 bits of `v`, read in two's complement.
pub open spec fn low_32_bits(v: int) -> int {
    let low = v % 0x1_0000_0000;
    if low >= 0x8000_0000 {
        low - 0x1_0000_0000
    } else {
        low
    }
}

/// Cuts `v` down to its low 32 bits, read in two's complement.
fn keep_low_32_bits(v: usize) -> (cut: i32)
    ensures
        cut == low_32_bits(v as int),
{
    let low: u64 = (v as u64) % 0x1_0000_0000;
    if low >= 0x8000_0000 {
        (low as i64 - 0x1_0000_0000) as i32
    } else {
        low as i32
    }
}

/// The text of a vector whose components read `x_text` and `y_text`: the
/// two between square brackets, with a comma and a space between them.
pub open spec fn bracketed(x_text: Seq<char>, y_text: Seq<char>) -> Seq<char> {
    "["@ + x_text + ", "@ + y_text + "]"@
}

impl Vec2Int {
    /// The vector of two zeros.
    pub fn zero() -> (v: Vec2Int)
        ensures
            v == (Vec2Int { x: 0, y: 0 }),
    {
        Vec2Int { x: 0, y: 0 }
    }

    /// The vector of two ones.
    pub fn one() -> (v: Vec2Int)
        ensures
            v == (Vec2Int { x: 1, y: 1 }),
    {
        Vec2Int { x: 1, y: 1 }
    }

    /// The unit vector that points up.
    pub fn up() -> (v: Vec2Int)
        ensures
            v == (Vec2Int { x: 0, y: 1 }),
    {
        Vec2Int { x: 0, y: 1 }
    }

    /// The unit vector that points right.
    pub fn right() -> (v: Vec2Int)
        ensures
            v == (Vec2Int { x: 1, y: 0 }),
    {
        Vec2Int { x: 1, y: 0 }
    }

    /// The vector with the given components.
    pub fn new(x: i32, y: i32) -> (v: Vec2Int)
        ensures
            v == (Vec2Int { x, y }),
    {
        Vec2Int { x, y }
    }

    /// Limits each component to at least that of `min_vec` and then to at
    /// most that of `max_vec`.
    pub fn clamp_components(&mut self, min_vec: &Vec2Int, max_vec: &Vec2Int)
        ensures
            final(self).x == clamped(old(self).x, min_vec.x, max_vec.x),
            final(self).y == clamped(old(self).y, min_vec.y, max_vec.y),
    {
        self.x = clamp_i32(self.x, min_vec.x, max_vec.x);
        self.y = clamp_i32(self.y, min_vec.y, max_vec.y);
    }

    /// The product of the two vectors, component by component.
    pub fn cwise_product(&self, other_vec: Vec2Int) -> (product: Vec2Int)
        requires
            fits_i32(self.x * other_vec.x),
            fits_i32(self.y * other_vec.y),
        ensures
            product.x == self.x * other_vec.x,
            product.y == self.y * other_vec.y,
    {
        Vec2Int { x: self.x * other_vec.x, y: self.y * other_vec.y }
    }

    /// The quotient of the two vectors, component by component, each rounded
    /// toward zero.
    pub fn cwise_div(&self, other_vec: Vec2Int) -> (quotient: Vec2Int)
        requires
            can_divide(self.x, other_vec.x),
            can_divide(self.y, other_vec.y),
        ensures
            quotient.x == truncating_div(self.x as int, other_vec.x as int),
            quotient.y == truncating_div(self.y as int, other_vec.y as int),
    {
        proof {
            lemma_truncating_div(self.x, other_vec.x);
            lemma_truncating_div(self.y, other_vec.y);
        }
        Vec2Int { x: self.x / other_vec.x, y: self.y / other_vec.y }
    }

    /// Whether one of the components is zero.
    pub fn has_zero_dimension(&self) -> (flat: bool)
        ensures
            flat == (self.x == 0 || self.y == 0),
    {
        self.x == 0 || self.y == 0
    }

    /// Whether no component is negative, so that both can be read as
    /// unsigned numbers. Zero counts as positive.
    pub fn is_positive(&self) -> (positive: bool)
        ensures
            positive == (self.x >= 0 && self.y >= 0),
    {
        self.x >= 0 && self.y >= 0
    }

    /// The component along `axis`.
    pub fn get_axis(&self, axis: Axis) -> (component: i32)
        ensures
            component == (match axis {
                Axis::X => self.x,
                Axis::Y => self.y,
            }),
    {
        match axis {
            Axis::X => self.x,
            Axis::Y => self.y,
        }
    }

    /// The horizontal component.
    pub fn x(&self) -> (x: &i32)
        ensures
            *x == self.x,
    {
        &self.x
    }

    /// The vertical component.
    pub fn y(&self) -> (y: &i32)
        ensures
            *y == self.y,
    {
        &self.y
    }

    /// The components in order: first `x`, then `y`.
    pub fn iter(&self) -> (components: Vec<i32>)
        ensures
            components@ == seq![self.x, self.y],
    {
        let mut components: Vec<i32> = Vec::new();
        components.push(self.x);
        components.push(self.y);
        assert(components@ =~= seq![self.x, self.y]);
        components
    }

    /// Puts the texts of two components together as the text of a vector.
    pub fn format_components(x_text: &str, y_text: &str) -> (text: String)
        ensures
            text@ == bracketed(x_text@, y_text@),
    {
        let mut text = String::from_str("[");
        text.append(x_text);
        text.append(", ");
        text.append(y_text);
        text.append("]");
        text
    }

    /// The vector as text, such as `[3, -4]`.
    pub fn to_string(&self) -> (text: String)
        ensures
            text@ == bracketed(decimal_text(self.x as int), decimal_text(self.y as int)),
    {
        let x_text = decimal_string(self.x);
        let y_text = decimal_string(self.y);
        Vec2Int::format_components(x_text.as_str(), y_text.as_str())
    }

    /// Takes over the pair that an editor widget hands back. `edited` holds
    /// the two components after the edit, or nothing where the user changed
    /// nothing. Returns whether the vector was written.
    pub fn vec2int_inspector(&mut self, edited: Option<[i32; 2]>) -> (dirty: bool)
        ensures
            dirty == edited is Some,
            edited is Some ==> *final(self) == (Vec2Int { x: edited.unwrap()[0], y: edited.unwrap()[1] }),
            edited is None ==> *final(self) == *old(self),
    {
        match edited {
            Some(pair) => {
                self.x = pair[0];
                self.y = pair[1];
                true
            },
            None => false,
        }
    }

    /// Takes over the components that two separate editor widgets hand back,
    /// each holding the new value or nothing where the user left it alone.
    /// Returns whether either component was written.
    pub fn vec2int_inspector_like_ints(&mut self, x_edited: Option<i32>, y_edited: Option<i32>) -> (dirty:
        bool)
        ensures
            dirty == (x_edited is Some || y_edited is Some),
            final(self).x == (if x_edited is Some { x_edited.unwrap() } else { old(self).x }),
            final(self).y == (if y_edited is Some { y_edited.unwrap() } else { old(self).y }),
    {
        let mut dirty = false;
        if let Some(x) = x_edited {
            self.x = x;
            dirty = true;
        }
        if let Some(y) = y_edited {
            self.y = y;
            dirty = true;
        }
        dirty
    }
}

fn clamp_i32(v: i32, low: i32, high: i32) -> (limited: i32)
    ensures
        limited == clamped(v, low, high),
{
    let raised = if v < low { low } else { v };
    if raised > high { high } else { raised }
}

/// The quotient rounded toward zero fits in `i32` wherever the division can
/// be computed, and it is what machine division of signed numbers yields.
pub proof fn lemma_truncating_div(a: i32, b: i32)
    requires
        can_divide(a, b),
    ensures
        fits_i32(truncating_div(a as int, b as int)),
        truncating_div(a as int, b as int) == (if a >= 0 {
            a as int / b as int
        } else {
            -((-a) as int / b as int)
        }),
{
    let m = magnitude(a as int);
    let d = magnitude(b as int);
    assert(0 <= m / d <= m) by (nonlinear_arith)
        requires
            m >= 0,
            d > 0,
    ;
    if d >= 2 {
        assert(2 * (m / d) <= m) by (nonlinear_arith)
            requires
                m >= 0,
                d >= 2,
        ;
    }
    if b < 0 {
        assert(m / (b as int) == -(m / (-b))) by (nonlinear_arith)
            requires
                m >= 0,
                b < 0,
        ;
    }
}

impl Default for Vec2Int {
    fn default() -> (v: Vec2Int)
        ensures
            v == (Vec2Int { x: 0, y: 0 }),
    {
        Vec2Int { x: 0, y: 0 }
    }
}

impl AddSpecImpl<Vec2Int> for Vec2Int {
    open spec fn obeys_add_spec() -> bool {
        true
    }

    open spec fn add_req(self, rhs: Vec2Int) -> bool {
        fits_i32(self.x + rhs.x) && fits_i32(self.y + rhs.y)
    }

    open spec fn add_spec(self, rhs: Vec2Int) -> Vec2Int {
        Vec2Int { x: (self.x + rhs.x) as i32, y: (self.y + rhs.y) as i32 }
    }
}

impl core::ops::Add<Vec2Int> for Vec2Int {
    type Output = Vec2Int;

    fn add(self, rhs: Vec2Int) -> Vec2Int {
        Vec2Int { x: self.x + rhs.x, y: self.y + rhs.y }
    }
}

impl SubSpecImpl<Vec2Int> for Vec2Int {
    open spec fn obeys_sub_spec() -> bool {
        true
    }

    open spec fn sub_req(self, rhs: Vec2Int) -> bool {
        fits_i32(self.x - rhs.x) && fits_i32(self.y - rhs.y)
    }

    open spec fn sub_spec(self, rhs: Vec2Int) -> Vec2Int {
        Vec2Int { x: (self.x - rhs.x) as i32, y: (self.y - rhs.y) as i32 }
    }
}

impl core::ops::Sub<Vec2Int> for Vec2Int {
    type Output = Vec2Int;

    fn sub(self, rhs: Vec2Int) -> Vec2Int {
        Vec2Int { x: self.x - rhs.x, y: self.y - rhs.y }
    }
}

impl MulSpecImpl<i32> for Vec2Int {
    open spec fn obeys_mul_spec() -> bool {
        true
    }

    open spec fn mul_req(self, rhs: i32) -> bool {
        fits_i32(self.x * rhs) && fits_i32(self.y * rhs)
    }

    open spec fn mul_spec(self, rhs: i32) -> Vec2Int {
        Vec2Int { x: (self.x * rhs) as i32, y: (self.y * rhs) as i32 }
    }
}

impl core::ops::Mul<i32> for Vec2Int {
    type Output = Vec2Int;

    fn mul(self, rhs: i32) -> Vec2Int {
        Vec2Int { x: self.x * rhs, y: self.y * rhs }
    }
}

impl DivSpecImpl<i32> for Vec2Int {
    open spec fn obeys_div_spec() -> bool {
        true
    }

    open spec fn div_req(self, rhs: i32) -> bool {
        can_divide(self.x, rhs) && can_divide(self.y, rhs)
    }

    open spec fn div_spec(self, rhs: i32) -> Vec2Int {
        Vec2Int {
            x: truncating_div(self.x as int, rhs as int) as i32,
            y: truncating_div(self.y as int, rhs as int) as i32,
        }
    }
}

impl core::ops::Div<i32> for Vec2Int {
    type Output = Vec2Int;

    fn div(self, rhs: i32) -> Vec2Int {
        proof {
            lemma_truncating_div(self.x, rhs);
            lemma_truncating_div(self.y, rhs);
        }
        Vec2Int { x: self.x / rhs, y: self.y / rhs }
    }
}

impl core::ops::AddAssign<Vec2Int> for Vec2Int {
    fn add_assign(&mut self, rhs: Vec2Int)
        requires
            fits_i32(old(self).x + rhs.x),
            fits_i32(old(self).y + rhs.y),
        ensures
            final(self).x == old(self).x + rhs.x,
            final(self).y == old(self).y + rhs.y,
    {
        self.x += rhs.x;
        self.y += rhs.y;
    }
}

impl core::ops::SubAssign<Vec2Int> for Vec2Int {
    fn sub_assign(&mut self, rhs: Vec2Int)
        requires
            fits_i32(old(self).x - rhs.x),
            fits_i32(old(self).y - rhs.y),
        ensures
            final(self).x == old(self).x - rhs.x,
            final(self).y == old(self).y - rhs.y,
    {
        self.x -= rhs.x;
        self.y -= rhs.y;
    }
}

impl core::ops::MulAssign<i32> for Vec2Int {
    fn mul_assign(&mut self, rhs: i32)
        requires
            fits_i32(old(self).x * rhs),
            fits_i32(old(self).y * rhs),
        ensures
            final(self).x == old(self).x * rhs,
            final(self).y == old(self).y * rhs,
    {
        self.x = self.x * rhs;
        self.y = self.y * rhs;
    }
}

impl core::ops::DivAssign<i32> for Vec2Int {
    fn div_assign(&mut self, rhs: i32)
        requires
            can_divide(old(self).x, rhs),
            can_divide(old(self).y, rhs),
        ensures
            final(self).x == truncating_div(old(self).x as int, rhs as int),
            final(self).y == truncating_div(old(self).y as int, rhs as int),
    {
        proof {
            lemma_truncating_div(self.x, rhs);
            lemma_truncating_div(self.y, rhs);
        }
        self.x = self.x / rhs;
        self.y = self.y / rhs;
    }
}

impl FromSpecImpl<[i32; 2]> for Vec2Int {
    open spec fn obeys_from_spec() -> bool {
        true
    }

    open spec fn from_spec(w: [i32; 2]) -> Vec2Int {
        Vec2Int { x: w[0], y: w[1] }
    }
}

impl From<[i32; 2]> for Vec2Int {
    fn from(w: [i32; 2]) -> Vec2Int {
        Vec2Int { x: w[0], y: w[1] }
    }
}

impl FromSpecImpl<(usize, usize)> for Vec2Int {
    open spec fn obeys_from_spec() -> bool {
        true
    }

    open spec fn from_spec(w: (usize, usize)) -> Vec2Int {
        Vec2Int { x: low_32_bits(w.0 as int) as i32, y: low_32_bits(w.1 as int) as i32 }
    }
}

impl From<(usize, usize)> for Vec2Int {
    fn from(w: (usize, usize)) -> Vec2Int {
        Vec2Int { x: keep_low_32_bits(w.0), y: keep_low_32_bits(w.1) }
    }
}

impl FromSpecImpl<Vec2Int> for [i32; 2] {
    open spec fn obeys_from_spec() -> bool {
        true
    }

    open spec fn from_spec(w: Vec2Int) -> [i32; 2] {
        [w.x, w.y]
    }
}

impl From<Vec2Int> for [i32; 2] {
    fn from(w: Vec2Int) -> [i32; 2] {
        [w.x, w.y]
    }
}

} // verus!

use vstd::prelude::*;
use vstd::string::StringSliceAdditionalSpecFns;
use crate::parse::{parse_signed, signed_value};

verus! {

/// The input was not of the form `A=[x,y]` with two `i64` numbers.
#[derive(Debug, Clone, Copy, PartialEq, Eq)]
pub enum ParseError {
    SyntaxError,
    InvalidNumber,
}

pub open spec fn abs(a: int) -> int {
    if a >= 0 {
        a
    } else {
        -a
    }
}

/// Rust's integer division, rounding toward zero.
pub open spec fn tdiv(a: int, d: int) -> int {
    if (a >= 0) == (d > 0) {
        abs(a) / abs(d)
    } else {
        -(abs(a) / abs(d))
    }
}

/// A complex number with integer parts.
#[derive(Debug, Clone, Copy, PartialEq, Eq, Structural)]
pub struct Complex {
    pub x: i64,
    pub y: i64,
}

pub open spec fn fits(a: int) -> bool {
    i64::MIN <= a <= i64::MAX
}

/// Both parts of `c` lie within `m` of zero.
pub open spec fn within(c: Complex, m: int) -> bool {
    abs(c.x as int) <= m && abs(c.y as int) <= m
}

fn unsigned_abs(a: i64) -> (r: u64)
    ensures
        r == abs(a as int),
{
    if a >= 0 {
        a as u64
    } else {
        (-(a as i128)) as u64
    }
}

/// Integer division rounding toward zero.
fn trunc_div(a: i64, d: i64) -> (r: i64)
    requires
        d != 0,
        !(a == i64::MIN && d == -1),
    ensures
        r == tdiv(a as int, d as int),
{
    let ua = unsigned_abs(a);
    let ud = unsigned_abs(d);
    let q = ua / ud;
    proof {
        assert(q <= ua) by (nonlinear_arith)
            requires
                q == ua / ud,
                ud >= 1,
                ua >= 0,
        ;
        if ud == 1 {
            assert(q == ua) by (nonlinear_arith)
                requires
                    q == ua / ud,
                    ud == 1,
            ;
        } else {
            assert(q <= ua / 2) by (nonlinear_arith)
                requires
                    q == ua / ud,
                    ud >= 2,
                    ua >= 0,
            ;
        }
    }
    if (a >= 0) == (d > 0) {
        q as i64
    } else if q == 9223372036854775808u64 {
        i64::MIN
    } else {
        -(q as i64)
    }
}

proof fn lemma_mul_bound(a: int, b: int, m: int)
    requires
        abs(a) <= m,
        abs(b) <= m,
    ensures
        abs(a * b) <= m * m,
        -(m * m) <= a * b <= m * m,
{
    assert(abs(a * b) == abs(a) * abs(b)) by (nonlinear_arith);
    assert(abs(a) * abs(b) <= m * m) by (nonlinear_arith)
        requires
            0 <= abs(a) <= m,
            0 <= abs(b) <= m,
    ;
}

impl Complex {
    pub fn new(x: i64, y: i64) -> (r: Complex)
        ensures
            r.x == x,
            r.y == y,
    {
        Complex { x, y }
    }

    /// Whether either part lies farther than `limit` from zero.
    pub fn exceeds(self, limit: u64) -> (r: bool)
        ensures
            r == (abs(self.x as int) > limit || abs(self.y as int) > limit),
    {
        unsigned_abs(self.x) > limit || unsigned_abs(self.y) > limit
    }

    pub fn add_assign(&mut self, rhs: Complex)
        requires
            fits(old(self).x + rhs.x),
            fits(old(self).y + rhs.y),
        ensures
            final(self).x == old(self).x + rhs.x,
            final(self).y == old(self).y + rhs.y,
    {
        self.x = self.x + rhs.x;
        self.y = self.y + rhs.y;
    }

    /// Complex multiplication; both factors within `2^31` of zero keep every part in range.
    pub fn mul_assign(&mut self, rhs: Complex)
        requires
            within(*old(self), 0x7fffffff),
            within(rhs, 0x7fffffff),
        ensures
            final(self).x == old(self).x * rhs.x - old(self).y * rhs.y,
            final(self).y == old(self).x * rhs.y + old(self).y * rhs.x,
    {
        proof {
            lemma_mul_bound(self.x as int, rhs.x as int, 0x7fffffff);
            lemma_mul_bound(self.y as int, rhs.y as int, 0x7fffffff);
            lemma_mul_bound(self.x as int, rhs.y as int, 0x7fffffff);
            lemma_mul_bound(self.y as int, rhs.x as int, 0x7fffffff);
        }
        let x = self.x * rhs.x - self.y * rhs.y;
        let y = self.x * rhs.y + self.y * rhs.x;
        self.x = x;
        self.y = y;
    }

    /// Divides both parts, rounding toward zero.
    pub fn div_assign(&mut self, rhs: i64)
        requires
            rhs != 0,
            !(rhs == -1 && (old(self).x == i64::MIN || old(self).y == i64::MIN)),
        ensures
            final(self).x == tdiv(old(self).x as int, rhs as int),
            final(self).y == tdiv(old(self).y as int, rhs as int),
    {
        self.x = trunc_div(self.x, rhs);
        self.y = trunc_div(self.y, rhs);
    }
}

/// One step of the engraving cycle: square, divide, add the point.
pub open spec fn cycle_step(m: Complex, z: Complex, d: int) -> (int, int) {
    (
        tdiv(m.x * m.x - m.y * m.y, d) + z.x,
        tdiv(m.x * m.y + m.y * m.x, d) + z.y,
    )
}

pub open spec fn as_complex(p: (int, int)) -> Complex {
    Complex { x: p.0 as i64, y: p.1 as i64 }
}

/// The point `z` is engraved: starting from zero, `steps` cycles that divide by
/// 100000 never leave the square of half-width 1000000.
pub open spec fn engraved_from(m: Complex, z: Complex, steps: nat) -> bool
    decreases steps,
{
    if steps == 0 {
        true
    } else {
        let n = cycle_step(m, z, 100000);
        abs(n.0) <= 1000000 && abs(n.1) <= 1000000 && engraved_from(as_complex(n), z, (steps - 1) as nat)
    }
}

pub open spec fn engraved(z: Complex) -> bool {
    engraved_from(Complex { x: 0, y: 0 }, z, 100)
}

proof fn lemma_tdiv_bound(a: int, d: int, m: int)
    requires
        d > 0,
        abs(a) <= m,
    ensures
        abs(tdiv(a, d)) <= m / d,
        abs(tdiv(a, d)) <= m,
{
    assert(abs(a) / d <= m / d) by (nonlinear_arith)
        requires
            0 <= abs(a) <= m,
            d > 0,
    ;
    assert(m / d <= m) by (nonlinear_arith)
        requires
            0 <= m,
            d > 0,
    ;
    assert(abs(a) / d >= 0) by (nonlinear_arith)
        requires
            0 <= abs(a),
            d > 0,
    ;
}

/// Runs the engraving cycle on `z` and tells whether it stays within bounds.
pub fn is_engraved(z: Complex) -> (r: bool)
    requires
        within(z, 1000000000000),
    ensures
        r == engraved(z),
{
    let mut m = Complex::new(0, 0);
    let mut k: usize = 0;
    while k < 100
        invariant
            within(z, 1000000000000),
            within(m, 1000000),
            k <= 100,
            engraved(z) == engraved_from(m, z, (100 - k) as nat),
        decreases 100 - k,
    {
        let ghost n = cycle_step(m, z, 100000);
        proof {
            lemma_mul_bound(m.x as int, m.x as int, 1000000);
            lemma_mul_bound(m.y as int, m.y as int, 1000000);
            lemma_mul_bound(m.x as int, m.y as int, 1000000);
            lemma_mul_bound(m.y as int, m.x as int, 1000000);
            lemma_tdiv_bound(m.x * m.x - m.y * m.y, 100000, 2000000000000);
            lemma_tdiv_bound(m.x * m.y + m.y * m.x, 100000, 2000000000000);
        }
        m.mul_assign(m);
        m.div_assign(100000);
        m.add_assign(z);
        proof {
            assert(m.x == n.0 && m.y == n.1);
        }
        if m.exceeds(1000000) {
            return false;
        }
        k = k + 1;
    }
    true
}

/// Engraved points among `count` grid points of a row at height `y`, from `x0`, `stride` apart.
pub open spec fn row_engraved(x0: int, y: int, stride: int, count: int) -> int
    decreases count,
{
    if count <= 0 {
        0
    } else {
        row_engraved(x0, y, stride, count - 1) + if engraved(
            Complex { x: (x0 + (count - 1) * stride) as i64, y: y as i64 },
        ) {
            1int
        } else {
            0int
        }
    }
}

/// Engraved points on a `count` by `count` grid from `a`, `stride` apart, first `rows` rows.
pub open spec fn grid_engraved(a: Complex, stride: int, count: int, rows: int) -> int
    decreases rows,
{
    if rows <= 0 {
        0
    } else {
        grid_engraved(a, stride, count, rows - 1) + row_engraved(
            a.x as int,
            a.y + (rows - 1) * stride,
            stride,
            count,
        )
    }
}

proof fn lemma_row_bound(x0: int, y: int, stride: int, count: int)
    requires
        count >= 0,
    ensures
        0 <= row_engraved(x0, y, stride, count) <= count,
    decreases count,
{
    if count > 0 {
        lemma_row_bound(x0, y, stride, count - 1);
    }
}

proof fn lemma_grid_bound(a: Complex, stride: int, count: int, rows: int)
    requires
        count >= 0,
        rows >= 0,
    ensures
        0 <= grid_engraved(a, stride, count, rows) <= rows * count,
    decreases rows,
{
    if rows > 0 {
        lemma_grid_bound(a, stride, count, rows - 1);
        lemma_row_bound(a.x as int, a.y + (rows - 1) * stride, stride, count);
        assert((rows - 1) * count + count == rows * count) by (nonlinear_arith);
    }
}

/// Counts the engraved points of the `count` by `count` grid that starts at `a`.
pub fn count_engraved(a: Complex, stride: i64, count: i64) -> (r: u64)
    requires
        within(a, 100000000000),
        1 <= stride <= 10,
        0 <= count <= 1001,
    ensures
        r == grid_engraved(a, stride as int, count as int, count as int),
{
    let mut total: u64 = 0;
    let mut j: i64 = 0;
    while j < count
        invariant
            within(a, 100000000000),
            1 <= stride <= 10,
            0 <= count <= 1001,
            0 <= j <= count,
            total == grid_engraved(a, stride as int, count as int, j as int),
        decreases count - j,
    {
        proof {
            assert(0 <= j * stride <= 10010) by (nonlinear_arith)
                requires
                    0 <= j <= 1001,
                    1 <= stride <= 10,
            ;
        }
        let y = a.y + j * stride;
        let mut i: i64 = 0;
        let mut row: u64 = 0;
        while i < count
            invariant
                within(a, 100000000000),
                1 <= stride <= 10,
                0 <= count <= 1001,
                0 <= j < count,
                0 <= i <= count,
                y == a.y + j * stride,
                0 <= j * stride <= 10010,
                row == row_engraved(a.x as int, y as int, stride as int, i as int),
            decreases count - i,
        {
            proof {
                lemma_row_bound(a.x as int, y as int, stride as int, i as int);
                assert(0 <= i * stride <= 10010) by (nonlinear_arith)
                    requires
                        0 <= i <= 1001,
                        1 <= stride <= 10,
                ;
            }
            let z = Complex::new(a.x + i * stride, y);
            proof {
                assert(within(z, 1000000000000));
            }
            if is_engraved(z) {
                row = row + 1;
            }
            i = i + 1;
        }
        proof {
            lemma_row_bound(a.x as int, y as int, stride as int, count as int);
            lemma_grid_bound(a, stride as int, count as int, j as int);
            assert(j * count <= 1001 * 1001) by (nonlinear_arith)
                requires
                    0 <= j <= 1001,
                    0 <= count <= 1001,
            ;
            assert(0 <= j * stride <= 10010) by (nonlinear_arith)
                requires
                    0 <= j <= 1001,
                    1 <= stride <= 10,
            ;
        }
        total = total + row;
        j = j + 1;
    }
    total
}

/// Three cycles that divide by 10, from zero.
pub open spec fn three_cycles(a: Complex) -> Complex {
    let r1 = as_complex(cycle_step(Complex { x: 0, y: 0 }, a, 10));
    let r2 = as_complex(cycle_step(r1, a, 10));
    as_complex(cycle_step(r2, a, 10))
}

/// A signed field that fits in an `i64`.
pub open spec fn fits_i64(f: Seq<u8>) -> bool {
    signed_value(f) matches Some(v) && i64::MIN <= v <= i64::MAX
}

/// `i` is the first comma of `A=[x,y]`, counting from the `[`.
pub open spec fn first_comma(s: Seq<u8>, i: int) -> bool {
    &&& 3 <= i < s.len() - 1
    &&& s[i] == 44u8
    &&& forall|k: int| 3 <= k < i ==> #[trigger] s[k] != 44u8
}

/// The text `A=[x,y]` with two numbers that fit in an `i64`, split at the first comma.
pub open spec fn complex_text(s: Seq<u8>) -> bool {
    &&& s.len() >= 4
    &&& s[0] == 65u8 && s[1] == 61u8 && s[2] == 91u8 && s[s.len() - 1] == 93u8
    &&& exists|i: int|
        #[trigger] first_comma(s, i) && fits_i64(s.subrange(3, i)) && fits_i64(
            s.subrange(i + 1, s.len() - 1),
        )
}

/// The engraving puzzle: complex numbers squared, divided and shifted.
pub struct Day02;

impl Day02 {
    /// Reads `A=[x,y]`.
    pub fn parse(input: &str) -> (r: Result<Complex, ParseError>)
        ensures
            r matches Ok(c) ==> exists|i: int|
                3 <= i < input.spec_bytes().len() - 1 && input.spec_bytes()[i] == 44u8 && signed_value(
                    input.spec_bytes().subrange(3, i),
                ) == Some(c.x as int) && signed_value(
                    input.spec_bytes().subrange(i + 1, input.spec_bytes().len() - 1),
                ) == Some(c.y as int),
            r is Ok <==> complex_text(input.spec_bytes()),
    {
        let b = input.as_bytes();
        let n = b.len();
        if n < 4 || b[0] != 65u8 || b[1] != 61u8 || b[2] != 91u8 || b[n - 1] != 93u8 {
            return Err(ParseError::SyntaxError);
        }
        let ghost sb = input.spec_bytes();
        let mut i: usize = 3;
        while i < n - 1 && b[i] != 44u8
            invariant
                3 <= i <= n - 1,
                n == b@.len(),
                b@ == sb,
                forall|k: int| 3 <= k < i ==> #[trigger] sb[k] != 44u8,
            decreases n - i,
        {
            i = i + 1;
        }
        if i == n - 1 {
            proof {
                assert forall|j: int| !#[trigger] first_comma(sb, j) by {
                    if first_comma(sb, j) {
                        assert(sb[j] != 44u8);
                    }
                }
            }
            return Err(ParseError::SyntaxError);
        }
        proof {
            assert(first_comma(sb, i as int));
            assert forall|j: int| #[trigger] first_comma(sb, j) implies j == i by {
                if j < i {
                    assert(sb[j] != 44u8);
                } else if j > i {
                    assert(sb[i as int] != 44u8);
                }
            }
        }
        let x = match parse_signed(b, 3, i) {
            Some(v) => v,
            None => {
                return Err(ParseError::InvalidNumber);
            },
        };
        let y = match parse_signed(b, i + 1, n - 1) {
            Some(v) => v,
            None => {
                return Err(ParseError::InvalidNumber);
            },
        };
        Ok(Complex::new(x, y))
    }

    /// The result of three cycles that divide by 10.
    pub fn part_1(input: &Complex) -> (r: Complex)
        requires
            within(*input, 100000),
        ensures
            r == three_cycles(*input),
    {
        let a = *input;
        let mut result = Complex::new(0, 0);
        let mut k: usize = 0;
        let ghost mut expect = Complex { x: 0, y: 0 };
        while k < 3
            invariant
                a == *input,
                within(a, 100000),
                k <= 3,
                k == 0 ==> result == (Complex { x: 0, y: 0 }),
                k == 1 ==> result == as_complex(cycle_step(Complex { x: 0, y: 0 }, a, 10)),
                k == 2 ==> result == as_complex(
                    cycle_step(as_complex(cycle_step(Complex { x: 0, y: 0 }, a, 10)), a, 10),
                ),
                k == 3 ==> result == three_cycles(a),
                k == 0 ==> within(result, 0),
                k == 1 ==> within(result, 100000),
                k == 2 ==> within(result, 2100000000),
            decreases 3 - k,
        {
            let ghost n = cycle_step(result, a, 10);
            let ghost m: int = if k == 0 {
                0
            } else if k == 1 {
                100000
            } else {
                2100000000
            };
            proof {
                lemma_mul_bound(result.x as int, result.x as int, m);
                lemma_mul_bound(result.y as int, result.y as int, m);
                lemma_mul_bound(result.x as int, result.y as int, m);
                lemma_mul_bound(result.y as int, result.x as int, m);
                lemma_tdiv_bound(result.x * result.x - result.y * result.y, 10, 2 * m * m);
                lemma_tdiv_bound(result.x * result.y + result.y * result.x, 10, 2 * m * m);
            }
            result.mul_assign(result);
            result.div_assign(10);
            result.add_assign(a);
            proof {
                assert(result.x == n.0 && result.y == n.1);
            }
            k = k + 1;
        }
        result
    }

    /// Engraved points of the 101 by 101 grid, 10 apart, from the input.
    pub fn part_2(input: &Complex) -> (r: u64)
        requires
            within(*input, 100000000000),
        ensures
            r == grid_engraved(*input, 10, 101, 101),
    {
        count_engraved(*input, 10, 101)
    }

    /// Engraved points of the 1001 by 1001 grid, 1 apart, from the input.
    pub fn part_3(input: &Complex) -> (r: u64)
        requires
            within(*input, 100000000000),
        ensures
            r == grid_engraved(*input, 1, 1001, 1001),
    {
        count_engraved(*input, 1, 1001)
    }
}

} // verus!

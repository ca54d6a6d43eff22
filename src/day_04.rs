use vstd::prelude::*;
use vstd::string::StringSliceAdditionalSpecFns;
use crate::parse::{field_bounds, parse_unsigned, split_fields, InvalidNumber};

verus! {

/// A gear: one wheel, or two wheels on one axle.
#[derive(Debug, Clone, Copy, PartialEq, Eq, Structural)]
pub enum Gear {
    Single(u64),
    Double(u64, u64),
}

impl Gear {
    /// Reads `a` or `a|b` from `b[start..end]`.
    pub fn parse(b: &[u8], start: usize, end: usize) -> (r: Result<Gear, InvalidNumber>)
        requires
            start <= end <= b@.len(),
        ensures
            r matches Ok(Gear::Double(_, _)) ==> exists|i: int| start <= i < end && b@[i] == 124u8,
    {
        let mut i: usize = start;
        while i < end && b[i] != 124u8
            invariant
                start <= i <= end <= b@.len(),
            decreases end - i,
        {
            i = i + 1;
        }
        if i == end {
            match parse_unsigned(b, start, end, u64::MAX) {
                Some(v) => Ok(Gear::Single(v)),
                None => Err(InvalidNumber),
            }
        } else {
            let l = match parse_unsigned(b, start, i, u64::MAX) {
                Some(v) => v,
                None => {
                    return Err(InvalidNumber);
                },
            };
            match parse_unsigned(b, i + 1, end, u64::MAX) {
                Some(v) => Ok(Gear::Double(l, v)),
                None => Err(InvalidNumber),
            }
        }
    }
}

/// The teeth of a gear train: single gears at both ends.
pub open spec fn ends_single(g: Seq<Gear>) -> bool {
    g.len() >= 2 && g[0] is Single && g.last() is Single
}

pub open spec fn first_teeth(g: Seq<Gear>) -> int {
    g[0]->Single_0 as int
}

pub open spec fn last_teeth(g: Seq<Gear>) -> int {
    g.last()->Single_0 as int
}

/// Turns of the last gear for `turns` turns of the first, through the shifts `1..i`
/// of the train, each a double gear: the rate before the last gear, times `last`.
pub open spec fn train_teeth(g: Seq<Gear>, start: int, i: int) -> int
    decreases i,
{
    if i <= 1 {
        start
    } else {
        let t = train_teeth(g, start, i - 1);
        t * (g[i - 1]->Double_1 as int) / (g[i - 1]->Double_0 as int)
    }
}

/// The gear puzzle: a train of gears of different sizes.
pub struct Day04;

impl Day04 {
    /// Reads one gear per line.
    pub fn parse(input: &str) -> (r: Result<Vec<Gear>, InvalidNumber>)
        ensures
            r matches Ok(v) ==> v@.len() <= split_fields(input.spec_bytes(), 10u8).len(),
    {
        let b = input.as_bytes();
        let bounds = field_bounds(b, 10u8);
        let mut count = bounds.len();
        proof {
            crate::parse::lemma_split_fields_nonempty(b@, 10u8);
        }
        if bounds[count - 1].0 == bounds[count - 1].1 {
            count = count - 1;
        }
        let mut v: Vec<Gear> = Vec::new();
        let mut j: usize = 0;
        while j < count
            invariant
                count <= bounds@.len(),
                forall|k: int|
                    0 <= k < bounds@.len() ==> (#[trigger] bounds@[k]).0 <= bounds@[k].1 <= b@.len(),
                j <= count,
                v@.len() == j,
            decreases count - j,
        {
            let (s0, e0) = bounds[j];
            let g = Gear::parse(b, s0, e0)?;
            v.push(g);
            j = j + 1;
        }
        Ok(v)
    }

    /// Turns of the last gear for 2025 turns of the first.
    pub fn part_1(gears: &Vec<Gear>) -> (r: u64)
        requires
            ends_single(gears@),
            last_teeth(gears@) > 0,
            first_teeth(gears@) * 2025 <= u64::MAX,
        ensures
            r == first_teeth(gears@) * 2025 / last_teeth(gears@),
    {
        let first = match gears[0] {
            Gear::Single(x) => x,
            Gear::Double(_, _) => 0,
        };
        let last = match gears[gears.len() - 1] {
            Gear::Single(x) => x,
            Gear::Double(_, _) => 1,
        };
        first * 2025 / last
    }

    /// Turns of the first gear, rounded up, for 10000000000000 turns of the last.
    pub fn part_2(gears: &Vec<Gear>) -> (r: u64)
        requires
            ends_single(gears@),
            first_teeth(gears@) > 0,
            last_teeth(gears@) * 10000000000000 <= u64::MAX,
        ensures
            r == (last_teeth(gears@) * 10000000000000 + first_teeth(gears@) - 1) / first_teeth(gears@),
    {
        let first = match gears[0] {
            Gear::Single(x) => x,
            Gear::Double(_, _) => 1,
        };
        let last = match gears[gears.len() - 1] {
            Gear::Single(x) => x,
            Gear::Double(_, _) => 0,
        };
        let p = 10000000000000u64 * last;
        let q = p / first;
        if p % first == 0 {
            proof {
                assert((p + first - 1) / (first as int) == q) by (nonlinear_arith)
                    requires
                        first > 0,
                        q == p / first,
                        p % first == 0,
                        p >= 0,
                ;
            }
            q
        } else {
            proof {
                assert((p + first - 1) / (first as int) == q + 1) by (nonlinear_arith)
                    requires
                        first > 0,
                        q == p / first,
                        p % first > 0,
                        p >= 0,
                ;
                assert(q + 1 <= u64::MAX) by (nonlinear_arith)
                    requires
                        first > 0,
                        q == p / first,
                        p <= u64::MAX,
                        p % first > 0,
                ;
            }
            q + 1
        }
    }

    /// Turns of the last gear for 100 turns of the first, through the double gears
    /// in between; `None` where the train is not of that shape or a rate overflows.
    pub fn part_3(gears: &Vec<Gear>) -> (r: Option<u64>)
        ensures
            r matches Some(x) ==> ends_single(gears@) && x == train_teeth(
                gears@,
                100 * first_teeth(gears@),
                gears@.len() - 1,
            ) / last_teeth(gears@),
    {
        let n = gears.len();
        if n < 2 {
            return None;
        }
        let first = match gears[0] {
            Gear::Single(x) => x,
            Gear::Double(_, _) => {
                return None;
            },
        };
        let last = match gears[n - 1] {
            Gear::Single(x) => x,
            Gear::Double(_, _) => {
                return None;
            },
        };
        if last == 0 {
            return None;
        }
        let mut teeth = match first.checked_mul(100) {
            Some(t) => t,
            None => {
                return None;
            },
        };
        let mut i: usize = 1;
        while i < n - 1
            invariant
                n == gears@.len(),
                n >= 2,
                1 <= i <= n - 1,
                first == first_teeth(gears@),
                teeth == train_teeth(gears@, 100 * first_teeth(gears@), i as int),
            decreases n - i,
        {
            match gears[i] {
                Gear::Double(left, right) => {
                    if left == 0 {
                        return None;
                    }
                    match teeth.checked_mul(right) {
                        Some(t) => {
                            teeth = t / left;
                        },
                        None => {
                            return None;
                        },
                    }
                },
                Gear::Single(_) => {
                    return None;
                },
            }
            i = i + 1;
        }
        Some(teeth / last)
    }
}

} // verus!

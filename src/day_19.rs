use vstd::prelude::*;
use vstd::string::StringSliceAdditionalSpecFns;
use crate::parse::{field_bounds, parse_signed, parse_unsigned, split_fields};

verus! {

/// A line was not `ahead,start,height` with three numbers in range.
#[derive(Debug, Clone, Copy, PartialEq, Eq)]
pub enum ParseError {
    SyntaxError,
    InvalidNumber,
}

/// Largest distance or height the search accepts: `2^40`.
pub const COORD_LIMIT: i64 = 1099511627776;

/// A gap in a wall: the wall stands `ahead` units forward, the gap spans the
/// heights `start..start + height`.
#[derive(Debug, Clone, Copy, PartialEq, Eq, Structural)]
pub struct Opening {
    pub ahead: u64,
    pub start: i64,
    pub height: i64,
}

impl Opening {
    pub open spec fn wf(self) -> bool {
        &&& self.ahead <= COORD_LIMIT
        &&& -COORD_LIMIT <= self.start <= COORD_LIMIT
        &&& 0 <= self.height <= COORD_LIMIT
    }

    /// Reads `ahead,start,height` from `b[from..to]`.
    pub fn parse(b: &[u8], from: usize, to: usize) -> (r: Result<Opening, ParseError>)
        requires
            from <= to <= b@.len(),
        ensures
            r matches Ok(o) ==> o.wf(),
    {
        let line = vstd::slice::slice_subrange(b, from, to);
        let parts = field_bounds(line, 44u8);
        if parts.len() != 3 {
            return Err(ParseError::SyntaxError);
        }
        let ahead = match parse_unsigned(line, parts[0].0, parts[0].1, COORD_LIMIT as u64) {
            Some(v) => v,
            None => {
                return Err(ParseError::InvalidNumber);
            },
        };
        let start = match parse_signed(line, parts[1].0, parts[1].1) {
            Some(v) => v,
            None => {
                return Err(ParseError::InvalidNumber);
            },
        };
        let height = match parse_signed(line, parts[2].0, parts[2].1) {
            Some(v) => v,
            None => {
                return Err(ParseError::InvalidNumber);
            },
        };
        if start < -COORD_LIMIT || start > COORD_LIMIT || height < 0 || height > COORD_LIMIT {
            return Err(ParseError::InvalidNumber);
        }
        Ok(Opening { ahead, start, height })
    }
}

/// Rust's `x % 2`: the sign follows `x`.
pub open spec fn rem2(x: int) -> int {
    if x % 2 == 0 {
        0
    } else if x >= 0 {
        1
    } else {
        -1
    }
}

fn trunc_rem2(x: i64) -> (r: i64)
    ensures
        r == rem2(x as int),
{
    let odd = if x >= 0 {
        (x as u64) % 2 == 1
    } else {
        ((-(x as i128)) as u64) % 2 == 1
    };
    proof {
        if x < 0 {
            assert((x as int) % 2 == (-(x as int)) % 2) by (nonlinear_arith);
        }
    }
    if !odd {
        0
    } else if x >= 0 {
        1
    } else {
        -1
    }
}

/// The fewest flaps that fly through one gap of every wall, rising one unit per flap
/// and falling one unit otherwise, from height 0; 0 where no such path exists.
pub fn find_path(input: &[Opening]) -> (r: i64)
    requires
        forall|i: int| 0 <= i < input@.len() ==> (#[trigger] input@[i]).wf(),
        forall|i: int, j: int| 0 <= i <= j < input@.len() ==> input@[i].ahead <= input@[j].ahead,
    ensures
        r >= 0,
{
    let n = input.len();
    let mut prev_x: u64 = 0;
    let mut prev: Vec<(i64, i64)> = Vec::new();
    prev.push((0, 0));
    let mut next: Vec<(i64, i64)> = Vec::new();
    let mut start_ix: usize = 0;
    while start_ix < n
        invariant
            n == input@.len(),
            forall|i: int| 0 <= i < input@.len() ==> (#[trigger] input@[i]).wf(),
            forall|i: int, j: int| 0 <= i <= j < input@.len() ==> input@[i].ahead <= input@[j].ahead,
            start_ix <= n,
            start_ix < n ==> prev_x <= input@[start_ix as int].ahead,
            prev_x <= COORD_LIMIT,
            forall|k: int|
                0 <= k < prev@.len() ==> 0 <= (#[trigger] prev@[k]).1 <= prev_x && -3 * COORD_LIMIT
                    <= prev@[k].0 <= 3 * COORD_LIMIT,
        decreases n - start_ix,
    {
        let x = input[start_ix].ahead;
        let mut end_ix: usize = start_ix;
        while end_ix < n && input[end_ix].ahead == x
            invariant
                start_ix <= end_ix <= n,
                n == input@.len(),
                forall|i: int| start_ix <= i < end_ix ==> (#[trigger] input@[i]).ahead == x,
            decreases n - end_ix,
        {
            end_ix = end_ix + 1;
        }
        let dx: i64 = (x - prev_x) as i64;
        next.clear();
        let mut w: usize = start_ix;
        while w < end_ix
            invariant
                n == input@.len(),
                forall|i: int| 0 <= i < input@.len() ==> (#[trigger] input@[i]).wf(),
                start_ix < end_ix <= n,
                start_ix <= w <= end_ix,
                prev_x <= x <= COORD_LIMIT,
                dx == x - prev_x,
                forall|k: int|
                    0 <= k < prev@.len() ==> 0 <= (#[trigger] prev@[k]).1 <= prev_x && -3 * COORD_LIMIT
                        <= prev@[k].0 <= 3 * COORD_LIMIT,
                forall|k: int|
                    0 <= k < next@.len() ==> 0 <= (#[trigger] next@[k]).1 <= x && -3 * COORD_LIMIT
                        <= next@[k].0 <= 3 * COORD_LIMIT,
            decreases end_ix - w,
        {
            let wall = input[w];
            let y1 = wall.start + trunc_rem2(wall.ahead as i64 + wall.start);
            let top = wall.start + wall.height - 1;
            let y2 = top - trunc_rem2(wall.ahead as i64 + top);
            let mut new_y = y1;
            while new_y <= y2
                invariant
                    prev_x <= x <= COORD_LIMIT,
                    dx == x - prev_x,
                    -COORD_LIMIT - 1 <= new_y,
                    y2 <= 2 * COORD_LIMIT + 1,
                    new_y <= 2 * COORD_LIMIT + 3,
                    forall|k: int|
                        0 <= k < prev@.len() ==> 0 <= (#[trigger] prev@[k]).1 <= prev_x && -3
                            * COORD_LIMIT <= prev@[k].0 <= 3 * COORD_LIMIT,
                    forall|k: int|
                        0 <= k < next@.len() ==> 0 <= (#[trigger] next@[k]).1 <= x && -3 * COORD_LIMIT
                            <= next@[k].0 <= 3 * COORD_LIMIT,
                decreases y2 + 2 - new_y,
            {
                let mut min_cost: i64 = i64::MAX;
                let mut k: usize = 0;
                while k < prev.len()
                    invariant
                        prev_x <= x <= COORD_LIMIT,
                        dx == x - prev_x,
                        -COORD_LIMIT - 1 <= new_y <= 2 * COORD_LIMIT + 1,
                        forall|j: int|
                            0 <= j < prev@.len() ==> 0 <= (#[trigger] prev@[j]).1 <= prev_x && -3
                                * COORD_LIMIT <= prev@[j].0 <= 3 * COORD_LIMIT,
                        min_cost == i64::MAX || 0 <= min_cost <= x,
                    decreases prev@.len() - k,
                {
                    let (y, cost) = prev[k];
                    let dy = new_y - y;
                    if dy <= dx && dy >= -dx {
                        let cost1 = cost + (dx + dy) / 2;
                        if cost1 < min_cost {
                            min_cost = cost1;
                        }
                    }
                    k = k + 1;
                }
                if min_cost != i64::MAX {
                    next.push((new_y, min_cost));
                }
                new_y = new_y + 2;
            }
            w = w + 1;
        }
        start_ix = end_ix;
        if start_ix == n {
            let mut best: i64 = i64::MAX;
            let mut k: usize = 0;
            while k < next.len()
                invariant
                    forall|j: int|
                        0 <= j < next@.len() ==> 0 <= (#[trigger] next@[j]).1 <= x,
                    best == i64::MAX || best >= 0,
                decreases next@.len() - k,
            {
                if next[k].1 < best {
                    best = next[k].1;
                }
                k = k + 1;
            }
            if best == i64::MAX {
                return 0;
            }
            return best;
        }
        prev_x = x;
        let tmp = prev;
        prev = next;
        next = tmp;
    }
    0
}

/// The flappy bird puzzle: fly through gaps in walls with as few flaps as possible.
pub struct Day19;

impl Day19 {
    /// Reads one opening per line.
    pub fn parse(input: &str) -> (r: Result<Vec<Opening>, ParseError>)
        ensures
            r matches Ok(v) ==> forall|i: int| 0 <= i < v@.len() ==> (#[trigger] v@[i]).wf(),
    {
        let b = input.as_bytes();
        let bounds = field_bounds(b, 10u8);
        let mut count = bounds.len();
        proof {
            crate::parse::lemma_split_fields_nonempty(b@, 10u8);
        }
        if bounds[count - 1].0 == bounds[count - 1].1 {
            count = count - 1;
        }
        let mut v: Vec<Opening> = Vec::new();
        let mut j: usize = 0;
        while j < count
            invariant
                count <= bounds@.len(),
                forall|k: int|
                    0 <= k < bounds@.len() ==> (#[trigger] bounds@[k]).0 <= bounds@[k].1 <= b@.len(),
                j <= count,
                forall|i: int| 0 <= i < v@.len() ==> (#[trigger] v@[i]).wf(),
            decreases count - j,
        {
            let (s0, e0) = bounds[j];
            let o = Opening::parse(b, s0, e0)?;
            v.push(o);
            j = j + 1;
        }
        Ok(v)
    }

    pub fn part_1(input: &Vec<Opening>) -> (r: i64)
        requires
            forall|i: int| 0 <= i < input@.len() ==> (#[trigger] input@[i]).wf(),
            forall|i: int, j: int| 0 <= i <= j < input@.len() ==> input@[i].ahead <= input@[j].ahead,
        ensures
            r >= 0,
    {
        find_path(input.as_slice())
    }

    pub fn part_2(input: &Vec<Opening>) -> (r: i64)
        requires
            forall|i: int| 0 <= i < input@.len() ==> (#[trigger] input@[i]).wf(),
            forall|i: int, j: int| 0 <= i <= j < input@.len() ==> input@[i].ahead <= input@[j].ahead,
        ensures
            r >= 0,
    {
        find_path(input.as_slice())
    }

    pub fn part_3(input: &Vec<Opening>) -> (r: i64)
        requires
            forall|i: int| 0 <= i < input@.len() ==> (#[trigger] input@[i]).wf(),
            forall|i: int, j: int| 0 <= i <= j < input@.len() ==> input@[i].ahead <= input@[j].ahead,
        ensures
            r >= 0,
    {
        find_path(input.as_slice())
    }
}

} // verus!

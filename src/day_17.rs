use vstd::prelude::*;
use crate::parse::field_bounds;
use crate::day_15::MinHeap;

verus! {

/// The input was empty, ragged, or held a byte other than a digit, `@` or `S`.
#[derive(Debug, Clone, Copy, PartialEq, Eq)]
pub enum ParseError {
    SyntaxError,
    InvalidTile(u8),
}

/// A cell of the map: the volcano, the start, or ground of a given value.
#[derive(Debug, Clone, Copy, PartialEq, Eq, Structural)]
pub enum Tile {
    Volcano,
    Start,
    Cell(u8),
}

impl Tile {
    pub fn try_from(value: u8) -> (r: Result<Tile, ParseError>)
        ensures
            value == 64u8 ==> r == Ok::<Tile, ParseError>(Tile::Volcano),
            value == 83u8 ==> r == Ok::<Tile, ParseError>(Tile::Start),
            48 <= value <= 57 ==> r == Ok::<Tile, ParseError>(Tile::Cell((value - 48) as u8)),
            r is Err <==> !(value == 64u8 || value == 83u8 || 48 <= value <= 57),
    {
        if value == 64u8 {
            Ok(Tile::Volcano)
        } else if value == 83u8 {
            Ok(Tile::Start)
        } else if 48 <= value && value <= 57 {
            Ok(Tile::Cell(value - 48))
        } else {
            Err(ParseError::InvalidTile(value))
        }
    }
}

/// The values of the map, row by row, with the volcano's and the start's cells.
#[derive(Debug, Clone)]
pub struct Input {
    pub data: Vec<u8>,
    pub width: usize,
    pub height: usize,
    pub volcano: Option<(usize, usize)>,
    pub start: Option<(usize, usize)>,
}

impl Input {
    pub open spec fn wf(&self) -> bool {
        &&& self.data@.len() == self.width * self.height
        &&& self.width <= 65536
        &&& self.height <= 65536
        &&& forall|i: int| 0 <= i < self.data@.len() ==> #[trigger] self.data@[i] <= 9
        &&& (self.volcano matches Some(v) ==> v.0 < self.height && v.1 < self.width)
        &&& (self.start matches Some(s) ==> s.0 < self.height && s.1 < self.width)
    }

    pub fn get(&self, r: usize, c: usize) -> (v: u8)
        requires
            self.wf(),
            r < self.height,
            c < self.width,
        ensures
            v == self.data@[r * self.width + c],
            v <= 9,
    {
        let n = self.data.len();
        proof {
            lemma_cell(self.width as int, self.height as int, r as int, c as int);
            assert(r * self.width + c < n);
        }
        self.data[r * self.width + c]
    }
}

proof fn lemma_cell(w: int, h: int, r: int, c: int)
    requires
        0 <= r < h,
        0 <= c < w,
    ensures
        0 <= r * w + c < w * h,
{
    assert(r * w + c < w * h) by (nonlinear_arith)
        requires
            0 <= r < h,
            0 <= c < w,
    ;
    assert(0 <= r * w) by (nonlinear_arith)
        requires
            0 <= r,
            0 <= w,
    ;
}

fn abs_diff(a: usize, b: usize) -> (r: usize)
    ensures
        r == (if a >= b {
            a - b
        } else {
            b - a
        }),
{
    if a >= b {
        a - b
    } else {
        b - a
    }
}

/// The smallest `d` with `d * d >= x`, for `x == a * a + b * b`: at most `a + b`.
fn ceil_sqrt(x: u64, a: u64, b: u64) -> (d: u64)
    requires
        a <= 65536,
        b <= 65536,
        x == a * a + b * b,
    ensures
        d * d >= x,
        d == 0 || (d - 1) * (d - 1) < x,
        d <= a + b,
{
    proof {
        assert((a + b) * (a + b) >= a * a + b * b) by (nonlinear_arith)
            requires
                a >= 0,
                b >= 0,
        ;
    }
    let mut d: u64 = 0;
    while d * d < x
        invariant
            d <= a + b,
            (a + b) * (a + b) >= x,
            a + b <= 131072,
            d == 0 || (d - 1) * (d - 1) < x,
            d * d <= 17179869184,
        decreases a + b - d,
    {
        proof {
            if d == a + b {
                assert(false);
            }
            assert((d + 1) * (d + 1) <= (a + b) * (a + b)) by (nonlinear_arith)
                requires
                    d + 1 <= a + b,
            ;
            assert((d + 1) * (d + 1) <= 17179869184) by (nonlinear_arith)
                requires
                    d + 1 <= 131072,
            ;
        }
        d = d + 1;
    }
    d
}

/// Reads the map, one row per line.
pub fn parse_input(input: &str) -> (r: Result<Input, ParseError>)
    ensures
        r matches Ok(v) ==> v.wf(),
{
    let b = input.as_bytes();
    let bounds = field_bounds(b, 10u8);
    let mut count = bounds.len();
    proof {
        crate::parse::lemma_split_fields_nonempty(b@, 10u8);
    }
    if bounds[count - 1].0 == bounds[count - 1].1 {
        count = count - 1;
    }
    if count == 0 || count > 65536 {
        return Err(ParseError::SyntaxError);
    }
    let width = bounds[0].1 - bounds[0].0;
    if width > 65536 {
        return Err(ParseError::SyntaxError);
    }
    let mut data: Vec<u8> = Vec::new();
    let mut volcano: Option<(usize, usize)> = None;
    let mut start: Option<(usize, usize)> = None;
    let mut j: usize = 0;
    while j < count
        invariant
            1 <= count <= bounds@.len(),
            count <= 65536,
            width <= 65536,
            forall|k: int|
                0 <= k < bounds@.len() ==> (#[trigger] bounds@[k]).0 <= bounds@[k].1 <= b@.len(),
            j <= count,
            data@.len() == j * width,
            forall|i: int| 0 <= i < data@.len() ==> #[trigger] data@[i] <= 9,
            volcano matches Some(v) ==> v.0 < count && v.1 < width,
            start matches Some(s) ==> s.0 < count && s.1 < width,
        decreases count - j,
    {
        let (s0, e0) = bounds[j];
        if e0 - s0 != width {
            return Err(ParseError::SyntaxError);
        }
        let mut i: usize = s0;
        while i < e0
            invariant
                s0 <= i <= e0 <= b@.len(),
                e0 - s0 == width,
                j < count,
                data@.len() == j * width + (i - s0),
                forall|q: int| 0 <= q < data@.len() ==> #[trigger] data@[q] <= 9,
                volcano matches Some(v) ==> v.0 < count && v.1 < width,
                start matches Some(s) ==> s.0 < count && s.1 < width,
            decreases e0 - i,
        {
            let v = match Tile::try_from(b[i])? {
                Tile::Volcano => {
                    volcano = Some((j, i - s0));
                    0
                },
                Tile::Start => {
                    start = Some((j, i - s0));
                    0
                },
                Tile::Cell(val) => val,
            };
            data.push(v);
            i = i + 1;
        }
        proof {
            assert((j + 1) * width == j * width + width) by (nonlinear_arith);
        }
        j = j + 1;
    }
    proof {
        assert(count * width == width * count) by (nonlinear_arith);
    }
    Ok(Input { data, width, height: count, volcano, start })
}

/// Sum of the values of the cells within `radius` of the volcano.
pub fn sum_within_radius(grid: &Input, volcano: (usize, usize), radius: u64) -> (r: u64)
    requires
        grid.wf(),
        volcano.0 < grid.height,
        volcano.1 < grid.width,
        radius <= 65536,
    ensures
        r <= 9 * grid.width * grid.height,
{
    let w = grid.width;
    let h = grid.height;
    let mut sum: u64 = 0;
    let mut r: usize = 0;
    while r < h
        invariant
            grid.wf(),
            w == grid.width,
            h == grid.height,
            volcano.0 < h,
            volcano.1 < w,
            radius <= 65536,
            r <= h,
            sum <= 9 * r * w,
        decreases h - r,
    {
        let mut c: usize = 0;
        while c < w
            invariant
                grid.wf(),
                w == grid.width,
                h == grid.height,
                volcano.0 < h,
                volcano.1 < w,
                radius <= 65536,
                r < h,
                c <= w,
                sum <= 9 * r * w + 9 * c,
            decreases w - c,
        {
            let dr = abs_diff(r, volcano.0) as u64;
            let dc = abs_diff(c, volcano.1) as u64;
            proof {
                assert(dr * dr <= 65536 * 65536 && dc * dc <= 65536 * 65536) by (nonlinear_arith)
                    requires
                        dr <= 65536,
                        dc <= 65536,
                ;
                assert(radius * radius <= 65536 * 65536) by (nonlinear_arith)
                    requires
                        radius <= 65536,
                ;
            }
            proof {
                assert(9 * r * w + 9 * c + 9 <= 9 * 65536 * 65536) by (nonlinear_arith)
                    requires
                        r < h <= 65536,
                        c < w <= 65536,
                ;
            }
            if dr * dr + dc * dc <= radius * radius {
                sum = sum + grid.get(r, c) as u64;
            }
            c = c + 1;
        }
        proof {
            assert(9 * r * w + 9 * w == 9 * (r + 1) * w) by (nonlinear_arith);
        }
        r = r + 1;
    }
    proof {
        assert(9 * h * w == 9 * w * h) by (nonlinear_arith);
    }
    sum
}

/// Sums of the values by rounded-up distance from the volcano, up to the nearest
/// distance at which a border cell lies.
pub fn sum_by_distance(grid: &Input, volcano: (usize, usize)) -> (v: Vec<u64>)
    requires
        grid.wf(),
        volcano.0 < grid.height,
        volcano.1 < grid.width,
    ensures
        v@.len() <= grid.width + grid.height,
{
    let w = grid.width;
    let h = grid.height;
    let n = w + h;
    let mut sums: Vec<u64> = Vec::new();
    let mut k: usize = 0;
    while k < n
        invariant
            k <= n,
            sums@.len() == k,
            forall|i: int| 0 <= i < k ==> #[trigger] sums@[i] == 0,
        decreases n - k,
    {
        sums.push(0);
        k = k + 1;
    }
    let mut max_dist: usize = usize::MAX;
    let mut r: usize = 0;
    while r < h
        invariant
            grid.wf(),
            w == grid.width,
            h == grid.height,
            n == w + h,
            sums@.len() == n,
            volcano.0 < h,
            volcano.1 < w,
            r <= h,
            forall|i: int| 0 <= i < sums@.len() ==> #[trigger] sums@[i] <= 9 * r * w,
        decreases h - r,
    {
        let mut c: usize = 0;
        while c < w
            invariant
                grid.wf(),
                w == grid.width,
                h == grid.height,
                n == w + h,
                sums@.len() == n,
                volcano.0 < h,
                volcano.1 < w,
                r < h,
                c <= w,
                forall|i: int| 0 <= i < sums@.len() ==> #[trigger] sums@[i] <= 9 * r * w + 9 * c,
            decreases w - c,
        {
            let dr = abs_diff(r, volcano.0) as u64;
            let dc = abs_diff(c, volcano.1) as u64;
            proof {
                assert(dr * dr <= 65536 * 65536 && dc * dc <= 65536 * 65536) by (nonlinear_arith)
                    requires
                        dr <= 65536,
                        dc <= 65536,
                ;
            }
            let dist = ceil_sqrt(dr * dr + dc * dc, dr, dc) as usize;
            if r == 0 || r == h - 1 || c == 0 || c == w - 1 {
                if dist < max_dist {
                    max_dist = dist;
                }
            }
            proof {
                assert(9 * r * w + 9 * c + 9 <= 9 * 65536 * 65536) by (nonlinear_arith)
                    requires
                        r < h <= 65536,
                        c < w <= 65536,
                ;
            }
            let old_sum = sums[dist];
            sums.set(dist, old_sum + grid.get(r, c) as u64);
            proof {
                assert forall|i: int| 0 <= i < sums@.len() implies #[trigger] sums@[i] <= 9 * r * w + 9 * (c + 1) by {
                }
            }
            c = c + 1;
        }
        proof {
            assert(9 * r * w + 9 * w == 9 * (r + 1) * w) by (nonlinear_arith);
        }
        r = r + 1;
    }
    if max_dist < usize::MAX && max_dist + 1 < sums.len() {
        sums.truncate(max_dist + 1);
    }
    sums
}

/// The length of the cheapest loop around the volcano that starts and ends at `start`
/// and stays outside the circle of radius `radius`, if it costs less than
/// `30 * (radius + 1)`: the search walks left and right around the volcano and meets
/// below it. Returns the best cost found for the radius, or `None`.
pub fn loop_cost(grid: &Input, volcano: (usize, usize), start: (usize, usize), radius: u64) -> (r: Option<u64>)
    requires
        grid.wf(),
        volcano.0 < grid.height,
        volcano.1 < grid.width,
        start.0 < grid.height,
        start.1 < grid.width,
        radius <= 140000,
        grid.width * grid.height <= 0x1000000,
{
    let w = grid.width;
    let h = grid.height;
    let cells = grid.data.len();
    let max_dist: u64 = (radius + 1) * 30 - 1;

    let mut visited: Vec<u64> = Vec::new();
    let mut k: usize = 0;
    while k < cells * 3
        invariant
            cells <= 0x1000000,
            k <= cells * 3,
            visited@.len() == k,
        decreases cells * 3 - k,
    {
        visited.push(u64::MAX);
        k = k + 1;
    }
    proof {
        assert(start.0 * w + start.1 < w * h) by (nonlinear_arith)
            requires
                start.0 < h,
                start.1 < w,
        ;
    }
    let start_cell = start.0 * w + start.1;
    visited.set(start_cell * 3, 0);
    let mut heap = MinHeap::new();
    heap.push((0, start_cell * 3));
    let mut rounds: u64 = 0;
    while heap.items.len() > 0 && rounds < 0x10000000
        invariant
            grid.wf(),
            w == grid.width,
            h == grid.height,
            cells == w * h,
            cells <= 0x1000000,
            visited@.len() == cells * 3,
            volcano.0 < h,
            volcano.1 < w,
            radius <= 140000,
            max_dist < 4300000,
            heap.items@.len() <= 4 * rounds + 1,
            rounds <= 0x10000000,
        decreases 0x10000000 - rounds,
    {
        let (dist, item) = match heap.pop() {
            Some(x) => x,
            None => (0, 0),
        };
        rounds = rounds + 1;
        if item >= cells * 3 {
            continue;
        }
        let cell = item / 3;
        let state = item % 3;
        let r = cell / w;
        let c = cell % w;
        proof {
            assert(cell < cells) by (nonlinear_arith)
                requires
                    item < cells * 3,
                    cell == item / 3,
            ;
            assert(r < h) by (nonlinear_arith)
                requires
                    cell < w * h,
                    r == cell / w,
                    w > 0,
            ;
        }
        // 0: leaving the start; 1: passed the volcano on its left; 2: on its right.
        let new_state: usize = if state == 0 && r == volcano.0 && c < volcano.1 {
            1
        } else if state == 0 && r == volcano.0 && c > volcano.1 {
            2
        } else if state == 0 && r > volcano.0 {
            continue;
        } else if state != 0 && r < volcano.0 {
            continue;
        } else if state != 0 && r > volcano.0 && c == volcano.1 {
            continue;
        } else {
            state
        };
        if dist >= max_dist {
            continue;
        }
        let mut d: usize = 0;
        while d < 4
            invariant
                grid.wf(),
                w == grid.width,
                h == grid.height,
                cells == w * h,
                cells <= 0x1000000,
                visited@.len() == cells * 3,
                volcano.0 < h,
                volcano.1 < w,
                r < h,
                c < w,
                new_state < 3,
                radius <= 140000,
                dist < max_dist,
                max_dist < 4300000,
                heap.items@.len() + 4 <= 4 * rounds + d + 1,
                d <= 4,
                rounds >= 1,
                rounds <= 0x10000000,
            decreases 4 - d,
        {
            let (ok, r1, c1) = if d == 0 {
                (r > 0, if r > 0 {
                    r - 1
                } else {
                    0
                }, c)
            } else if d == 1 {
                (r + 1 < h, r + 1, c)
            } else if d == 2 {
                (c > 0, r, if c > 0 {
                    c - 1
                } else {
                    0
                })
            } else {
                (c + 1 < w, r, c + 1)
            };
            d = d + 1;
            if !ok {
                continue;
            }
            let dr = abs_diff(r1, volcano.0) as u64;
            let dc = abs_diff(c1, volcano.1) as u64;
            proof {
                assert(dr * dr <= 65536 * 65536 && dc * dc <= 65536 * 65536) by (nonlinear_arith)
                    requires
                        dr <= 65536,
                        dc <= 65536,
                ;
                assert(radius * radius <= 140000 * 140000) by (nonlinear_arith)
                    requires
                        radius <= 140000,
                ;
            }
            if dr * dr + dc * dc <= radius * radius {
                continue;
            }
            let val = grid.get(r1, c1) as u64;
            if val == 0 {
                continue;
            }
            let new_dist = dist + val;
            proof {
                assert(r1 * w + c1 < w * h) by (nonlinear_arith)
                    requires
                        r1 < h,
                        c1 < w,
                ;
            }
            let slot = (r1 * w + c1) * 3 + new_state;
            if visited[slot] <= new_dist {
                continue;
            }
            visited.set(slot, new_dist);
            heap.push((new_dist, slot));
        }
    }
    let mut best: Option<u64> = None;
    let mut row: usize = volcano.0 + 1;
    while row < h
        invariant
            grid.wf(),
            w == grid.width,
            h == grid.height,
            cells == w * h,
            cells <= 0x1000000,
            visited@.len() == cells * 3,
            volcano.1 < w,
            max_dist < 4300000,
        decreases h - row,
    {
        proof {
            assert(row * w + volcano.1 < w * h) by (nonlinear_arith)
                requires
                    row < h,
                    volcano.1 < w,
            ;
        }
        let base = (row * w + volcano.1) * 3;
        let l = visited[base + 1];
        let rr = visited[base + 2];
        let val = grid.get(row, volcano.1) as u64;
        if l < u64::MAX && rr < u64::MAX && val >= 1 && l <= max_dist + 9 && rr <= max_dist + 9
            && l + rr >= val {
            let total = l + rr - val;
            if total <= max_dist {
                best = match best {
                    Some(b) => if total < b {
                        Some(total)
                    } else {
                        Some(b)
                    },
                    None => Some(total),
                };
            }
        }
        row = row + 1;
    }
    best
}

/// The cheapest loop around the volcano times the radius it keeps clear, for the
/// smallest radius that has one; `None` where no radius up to the map's size has one.
pub fn perimiter_sum(grid: &Input, volcano: (usize, usize), start: (usize, usize)) -> (r: Option<u64>)
    requires
        grid.wf(),
        volcano.0 < grid.height,
        volcano.1 < grid.width,
        start.0 < grid.height,
        start.1 < grid.width,
        grid.width * grid.height <= 0x1000000,
{
    let limit = (grid.width + grid.height) as u64;
    let mut radius: u64 = 0;
    while radius <= limit
        invariant
            grid.wf(),
            volcano.0 < grid.height,
            volcano.1 < grid.width,
            start.0 < grid.height,
            start.1 < grid.width,
            limit <= 131072,
            grid.width * grid.height <= 0x1000000,
        decreases limit + 1 - radius,
    {
        if let Some(dist) = loop_cost(grid, volcano, start, radius) {
            return dist.checked_mul(radius);
        }
        radius = radius + 1;
    }
    None
}

/// The volcano puzzle: a fire spreading from a volcano over a map of values.
pub struct Day17;

impl Day17 {
    pub fn parse(input: &str) -> (r: Result<Input, ParseError>)
        ensures
            r matches Ok(v) ==> v.wf(),
    {
        parse_input(input)
    }

    /// Sum of the values within distance 10 of the volcano.
    pub fn part_1(input: &Input) -> (r: u64)
        requires
            input.wf(),
            input.volcano is Some,
        ensures
            r <= 9 * input.width * input.height,
    {
        let volcano = match input.volcano {
            Some(v) => v,
            None => (0, 0),
        };
        sum_within_radius(input, volcano, 10)
    }

    /// The largest sum at one distance, times that distance (the farthest on ties).
    pub fn part_2(input: &Input) -> (r: u64)
        requires
            input.wf(),
            input.volcano is Some,
    {
        let volcano = match input.volcano {
            Some(v) => v,
            None => (0, 0),
        };
        let sums = sum_by_distance(input, volcano);
        let mut best: u64 = 0;
        let mut best_ix: usize = 0;
        let mut i: usize = 0;
        while i < sums.len()
            invariant
                i <= sums@.len(),
                sums@.len() <= input.width + input.height,
                input.wf(),
                best_ix < sums@.len() || best_ix == 0,
            decreases sums@.len() - i,
        {
            if sums[i] >= best {
                best = sums[i];
                best_ix = i;
            }
            i = i + 1;
        }
        match (best_ix as u64).checked_mul(best) {
            Some(v) => v,
            None => u64::MAX,
        }
    }

    /// The cheapest loop around the volcano, times the radius it keeps clear.
    pub fn part_3(input: &Input) -> (r: Option<u64>)
        requires
            input.wf(),
            input.volcano is Some,
            input.start is Some,
            input.width * input.height <= 0x1000000,
    {
        let volcano = match input.volcano {
            Some(v) => v,
            None => (0, 0),
        };
        let start = match input.start {
            Some(s) => s,
            None => (0, 0),
        };
        perimiter_sum(input, volcano, start)
    }
}

} // verus!

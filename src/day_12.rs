use vstd::prelude::*;
use vstd::string::StringSliceAdditionalSpecFns;
use crate::parse::field_bounds;

verus! {

/// The input was empty or its lines were of different lengths.
#[derive(Debug, Clone, Copy, PartialEq, Eq)]
pub enum ParseError {
    SyntaxError,
}

/// A rectangle of values stored row by row.
#[derive(Debug, Clone)]
pub struct Grid<T> {
    pub data: Vec<T>,
    pub width: usize,
    pub height: usize,
}

impl<T> Grid<T> {
    pub open spec fn wf(&self) -> bool {
        &&& self.data@.len() == self.width * self.height
        &&& self.width * self.height <= usize::MAX
    }

    pub fn new(data: Vec<T>, width: usize, height: usize) -> (g: Grid<T>)
        ensures
            g.data@ == data@,
            g.width == width,
            g.height == height,
    {
        Grid { data, width, height }
    }

    /// The value at row `r`, column `c`.
    pub fn get(&self, r: usize, c: usize) -> (v: &T)
        requires
            self.wf(),
            r < self.height,
            c < self.width,
        ensures
            *v == self.data@[r * self.width + c],
    {
        proof {
            lemma_cell(self.width as int, self.height as int, r as int, c as int);
        }
        &self.data[r * self.width + c]
    }
}

proof fn lemma_cell(w: int, h: int, r: int, c: int)
    requires
        0 <= r < h,
        0 <= c < w,
    ensures
        0 <= r * w + c < w * h,
{
    assert(r * w + c < w * h) by (nonlinear_arith)
        requires
            0 <= r < h,
            0 <= c < w,
    ;
    assert(0 <= r * w) by (nonlinear_arith)
        requires
            0 <= r,
            0 <= c < w,
    ;
}

/// Number of set flags.
pub open spec fn count_set(s: Seq<bool>) -> nat
    decreases s.len(),
{
    if s.len() == 0 {
        0
    } else {
        count_set(s.drop_last()) + if s.last() {
            1nat
        } else {
            0nat
        }
    }
}

pub proof fn lemma_count_set(s: Seq<bool>, i: int)
    requires
        0 <= i < s.len(),
        !s[i],
    ensures
        count_set(s.update(i, true)) == count_set(s) + 1,
        count_set(s) < s.len(),
    decreases s.len(),
{
    let t = s.update(i, true);
    if i == s.len() - 1 {
        assert(t.drop_last() =~= s.drop_last());
        lemma_count_set_le(s.drop_last());
    } else {
        lemma_count_set(s.drop_last(), i);
        assert(t.drop_last() =~= s.drop_last().update(i, true));
    }
}

pub proof fn lemma_count_set_le(s: Seq<bool>)
    ensures
        count_set(s) <= s.len(),
    decreases s.len(),
{
    if s.len() > 0 {
        lemma_count_set_le(s.drop_last());
    }
}

/// Reads a grid of bytes, one row per line.
pub fn parse_grid(input: &str) -> (r: Result<Grid<u8>, ParseError>)
    ensures
        r matches Ok(g) ==> g.wf(),
{
    let b = input.as_bytes();
    let bounds = field_bounds(b, 10u8);
    let mut count = bounds.len();
    proof {
        crate::parse::lemma_split_fields_nonempty(b@, 10u8);
    }
    if bounds[count - 1].0 == bounds[count - 1].1 {
        count = count - 1;
    }
    if count == 0 {
        return Err(ParseError::SyntaxError);
    }
    let width = bounds[0].1 - bounds[0].0;
    let mut data: Vec<u8> = Vec::new();
    let mut j: usize = 0;
    while j < count
        invariant
            1 <= count <= bounds@.len(),
            forall|k: int|
                0 <= k < bounds@.len() ==> (#[trigger] bounds@[k]).0 <= bounds@[k].1 <= b@.len(),
            j <= count,
            data@.len() == j * width,
        decreases count - j,
    {
        let (s0, e0) = bounds[j];
        if e0 - s0 != width {
            return Err(ParseError::SyntaxError);
        }
        let mut i: usize = s0;
        while i < e0
            invariant
                s0 <= i <= e0 <= b@.len(),
                e0 - s0 == width,
                data@.len() == j * width + (i - s0),
            decreases e0 - i,
        {
            data.push(b[i]);
            i = i + 1;
        }
        proof {
            assert((j + 1) * width == j * width + width) by (nonlinear_arith);
        }
        j = j + 1;
    }
    let total = data.len();
    proof {
        assert(total == count * width);
        assert(count * width == width * count) by (nonlinear_arith);
    }
    Ok(Grid::new(data, width, count))
}

/// Spreads fire from `positions` to every neighbour no higher than its cell, marking
/// `visited`. Returns how many cells caught fire on this call.
pub fn fireball(grid: &Grid<u8>, positions: &[(usize, usize)], visited: &mut Grid<bool>) -> (r: u64)
    requires
        grid.wf(),
        old(visited).wf(),
        old(visited).width == grid.width,
        old(visited).height == grid.height,
        forall|i: int|
            0 <= i < positions@.len() ==> (#[trigger] positions@[i]).0 < grid.height && positions@[i].1
                < grid.width,
    ensures
        final(visited).wf(),
        final(visited).width == grid.width,
        final(visited).height == grid.height,
        count_set(final(visited).data@) == count_set(old(visited).data@) + r,
{
    let w = grid.width;
    let h = grid.height;
    let ghost c0 = count_set(visited.data@);
    let mut pending: Vec<(usize, usize)> = Vec::new();
    let mut visited_count: u64 = 0;
    proof {
        lemma_count_set_le(visited.data@);
    }
    let mut i: usize = 0;
    while i < positions.len()
        invariant
            visited.wf(),
            visited.width == w,
            visited.height == h,
            w == grid.width,
            h == grid.height,
            grid.wf(),
            forall|k: int|
                0 <= k < positions@.len() ==> (#[trigger] positions@[k]).0 < h && positions@[k].1 < w,
            forall|k: int| 0 <= k < pending@.len() ==> (#[trigger] pending@[k]).0 < h && pending@[k].1 < w,
            count_set(visited.data@) == c0 + visited_count,
            count_set(visited.data@) <= visited.data@.len(),
        decreases positions@.len() - i,
    {
        let (r, c) = positions[i];
        proof {
            lemma_cell(w as int, h as int, r as int, c as int);
        }
        let idx = r * w + c;
        if !visited.data[idx] {
            proof {
                lemma_count_set(visited.data@, idx as int);
            }
            visited.data.set(idx, true);
            proof {
                lemma_count_set_le(visited.data@);
            }
            visited_count = visited_count + 1;
        }
        pending.push((r, c));
        i = i + 1;
    }
    let mut head: usize = 0;
    while head < pending.len()
        invariant
            visited.wf(),
            visited.width == w,
            visited.height == h,
            w == grid.width,
            h == grid.height,
            grid.wf(),
            forall|k: int| 0 <= k < pending@.len() ==> (#[trigger] pending@[k]).0 < h && pending@[k].1 < w,
            count_set(visited.data@) == c0 + visited_count,
            count_set(visited.data@) <= visited.data@.len(),
            head <= pending@.len(),
        decreases visited.data@.len() - count_set(visited.data@), pending@.len() - head,
    {
        let ghost cnt0 = count_set(visited.data@);
        let ghost len0 = pending@.len();
        let (r, c) = pending[head];
        head = head + 1;
        let here = *grid.get(r, c);
        let mut d: usize = 0;
        while d < 4
            invariant
                visited.wf(),
                visited.width == w,
                visited.height == h,
                w == grid.width,
                h == grid.height,
                grid.wf(),
                r < h,
                c < w,
                forall|k: int|
                    0 <= k < pending@.len() ==> (#[trigger] pending@[k]).0 < h && pending@[k].1 < w,
                count_set(visited.data@) == c0 + visited_count,
                count_set(visited.data@) <= visited.data@.len(),
                head <= pending@.len(),
                count_set(visited.data@) >= cnt0,
                count_set(visited.data@) == cnt0 ==> pending@.len() == len0,
                visited.data@.len() == w * h,
            decreases 4 - d,
        {
            let (ok, r1, c1) = if d == 0 {
                (r > 0, if r > 0 {
                    r - 1
                } else {
                    0
                }, c)
            } else if d == 1 {
                (c > 0, r, if c > 0 {
                    c - 1
                } else {
                    0
                })
            } else if d == 2 {
                (r + 1 < h, r + 1, c)
            } else {
                (c + 1 < w, r, c + 1)
            };
            if ok && *grid.get(r1, c1) <= here {
                proof {
                    lemma_cell(w as int, h as int, r1 as int, c1 as int);
                }
                let idx = r1 * w + c1;
                if !visited.data[idx] {
                    proof {
                        lemma_count_set(visited.data@, idx as int);
                    }
                    visited.data.set(idx, true);
                    proof {
                        lemma_count_set_le(visited.data@);
                    }
                    visited_count = visited_count + 1;
                    pending.push((r1, c1));
                }
            }
            d = d + 1;
        }
    }
    visited_count
}

/// A fresh grid of unset flags the size of `grid`.
pub fn blank_like(grid: &Grid<u8>) -> (v: Grid<bool>)
    requires
        grid.wf(),
    ensures
        v.wf(),
        v.width == grid.width,
        v.height == grid.height,
        count_set(v.data@) == 0,
{
    let n = grid.data.len();
    let mut data: Vec<bool> = Vec::new();
    let mut i: usize = 0;
    while i < n
        invariant
            i <= n,
            data@.len() == i,
            count_set(data@) == 0,
        decreases n - i,
    {
        let ghost before = data@;
        data.push(false);
        proof {
            assert(data@.drop_last() =~= before);
        }
        i = i + 1;
    }
    Grid::new(data, grid.width, grid.height)
}

/// Cells that catch fire from the given starting cells.
pub fn fireball_simple(grid: &Grid<u8>, positions: &[(usize, usize)]) -> (r: u64)
    requires
        grid.wf(),
        forall|i: int|
            0 <= i < positions@.len() ==> (#[trigger] positions@[i]).0 < grid.height && positions@[i].1
                < grid.width,
    ensures
        r <= grid.width * grid.height,
{
    let mut visited = blank_like(grid);
    let r = fireball(grid, positions, &mut visited);
    proof {
        lemma_count_set_le(visited.data@);
    }
    r
}

/// Number of flags set in `x` and in none of `a`, `b`.
fn count_new(a: &Vec<bool>, b: &Vec<bool>, x: &Vec<bool>) -> (r: u64)
    requires
        a@.len() == x@.len(),
        b@.len() == x@.len(),
    ensures
        r <= x@.len(),
{
    let mut count: u64 = 0;
    let mut i: usize = 0;
    while i < x.len()
        invariant
            a@.len() == x@.len(),
            b@.len() == x@.len(),
            i <= x@.len(),
            count <= i,
        decreases x@.len() - i,
    {
        if x[i] && !a[i] && !b[i] {
            count = count + 1;
        }
        i = i + 1;
    }
    count
}

/// The barrel puzzle: fireballs burn down through barrels of falling size.
pub struct Day12;

impl Day12 {
    pub fn parse(input: &str) -> (r: Result<Grid<u8>, ParseError>)
        ensures
            r matches Ok(g) ==> g.wf(),
    {
        parse_grid(input)
    }

    /// Barrels that burn from the top left.
    pub fn part_1(input: &Grid<u8>) -> (r: u64)
        requires
            input.wf(),
            input.width >= 1,
            input.height >= 1,
        ensures
            r <= input.width * input.height,
    {
        let start: [(usize, usize); 1] = [(0, 0)];
        fireball_simple(input, start.as_slice())
    }

    /// Barrels that burn from the top left and the bottom right.
    pub fn part_2(input: &Grid<u8>) -> (r: u64)
        requires
            input.wf(),
            input.width >= 1,
            input.height >= 1,
        ensures
            r <= input.width * input.height,
    {
        let start: [(usize, usize); 2] = [(0, 0), (input.height - 1, input.width - 1)];
        proof {
            assert(start@[0] == (0usize, 0usize));
            assert(start@[1] == ((input.height - 1) as usize, (input.width - 1) as usize));
        }
        fireball_simple(input, start.as_slice())
    }

    /// Barrels burnt by three fireballs, each chosen greedily to burn the most new barrels.
    pub fn part_3(input: &Grid<u8>) -> (r: u64)
        requires
            input.wf(),
            input.width >= 1,
            input.height >= 1,
        ensures
            r <= input.width * input.height,
    {
        let w = input.width;
        let h = input.height;
        // The cells ordered by height, lowest first.
        let mut candidates: Vec<(usize, usize)> = Vec::new();
        let mut key: u16 = 0;
        while key < 256
            invariant
                input.wf(),
                w == input.width,
                h == input.height,
                forall|k: int|
                    0 <= k < candidates@.len() ==> (#[trigger] candidates@[k]).0 < h && candidates@[k].1
                        < w,
            decreases 256 - key,
        {
            let mut r: usize = 0;
            while r < h
                invariant
                    input.wf(),
                    w == input.width,
                    h == input.height,
                    forall|k: int|
                        0 <= k < candidates@.len() ==> (#[trigger] candidates@[k]).0 < h
                            && candidates@[k].1 < w,
                decreases h - r,
            {
                let mut c: usize = 0;
                while c < w
                    invariant
                        input.wf(),
                        w == input.width,
                        h == input.height,
                        r < h,
                        forall|k: int|
                            0 <= k < candidates@.len() ==> (#[trigger] candidates@[k]).0 < h
                                && candidates@[k].1 < w,
                    decreases w - c,
                {
                    if *input.get(r, c) as u16 == key {
                        candidates.push((r, c));
                    }
                    c = c + 1;
                }
                r = r + 1;
            }
            key = key + 1;
        }
        let n = input.data.len();
        let mut sets: Vec<(u64, Vec<bool>)> = Vec::new();
        while candidates.len() > 0
            invariant
                input.wf(),
                w == input.width,
                h == input.height,
                n == input.data@.len(),
                forall|k: int|
                    0 <= k < candidates@.len() ==> (#[trigger] candidates@[k]).0 < h && candidates@[k].1
                        < w,
                forall|k: int| 0 <= k < sets@.len() ==> (#[trigger] sets@[k]).1@.len() == n,
            decreases candidates@.len(),
        {
            let pos = candidates.pop().unwrap();
            let mut visited = blank_like(input);
            let start: [(usize, usize); 1] = [pos];
            let score = fireball(input, start.as_slice(), &mut visited);
            sets.push((score, visited.data));
        }
        let blank = blank_like(input).data;
        let mut best = [0usize; 3];
        let mut round: usize = 0;
        while round < 3
            invariant
                input.wf(),
                n == input.data@.len(),
                blank@.len() == n,
                forall|k: int| 0 <= k < sets@.len() ==> (#[trigger] sets@[k]).1@.len() == n,
                forall|k: int| 0 <= k < 3 ==> best@[k] < sets@.len() || sets@.len() == 0,
            decreases 3 - round,
        {
            if sets.len() == 0 {
                return 0;
            }
            let a: &Vec<bool> = if round >= 1 {
                &sets[best[0]].1
            } else {
                &blank
            };
            let b: &Vec<bool> = if round >= 2 {
                &sets[best[1]].1
            } else {
                &blank
            };
            let mut top: u64 = 0;
            let mut top_ix: usize = 0;
            let mut k: usize = 0;
            while k < sets.len()
                invariant
                    a@.len() == n,
                    b@.len() == n,
                    forall|q: int| 0 <= q < sets@.len() ==> (#[trigger] sets@[q]).1@.len() == n,
                    k <= sets@.len(),
                    top_ix < sets@.len(),
                decreases sets@.len() - k,
            {
                let score = count_new(a, b, &sets[k].1);
                if score >= top {
                    top = score;
                    top_ix = k;
                }
                k = k + 1;
            }
            best[round] = top_ix;
            round = round + 1;
        }
        if sets.len() == 0 {
            return 0;
        }
        let a = &sets[best[0]].1;
        let b = &sets[best[1]].1;
        let c = &sets[best[2]].1;
        let mut total: u64 = 0;
        let mut i: usize = 0;
        while i < n
            invariant
                a@.len() == n,
                b@.len() == n,
                c@.len() == n,
                i <= n,
                total <= i,
            decreases n - i,
        {
            if a[i] || b[i] || c[i] {
                total = total + 1;
            }
            i = i + 1;
        }
        total
    }
}

} // verus!

use vstd::prelude::*;
use std::collections::HashMap;
use crate::parse::field_bounds;

verus! {

/// The input was empty, ragged, or held a byte other than `.` and `#`.
#[derive(Debug, Clone, Copy, PartialEq, Eq)]
pub enum ParseError {
    SyntaxError,
    InvalidTile(u8),
}

/// A floor tile, lit or dark.
#[derive(Debug, Clone, Copy, PartialEq, Eq, Hash, Structural)]
pub enum Tile {
    Active,
    Inactive,
}

impl Tile {
    /// Reads `#` (lit) or `.` (dark).
    pub fn try_from(value: u8) -> (r: Result<Tile, ParseError>)
        ensures
            value == 35u8 ==> r == Ok::<Tile, ParseError>(Tile::Active),
            value == 46u8 ==> r == Ok::<Tile, ParseError>(Tile::Inactive),
            value != 35u8 && value != 46u8 ==> r == Err::<Tile, ParseError>(ParseError::InvalidTile(value)),
    {
        if value == 46u8 {
            Ok(Tile::Inactive)
        } else if value == 35u8 {
            Ok(Tile::Active)
        } else {
            Err(ParseError::InvalidTile(value))
        }
    }

    /// The byte the tile is written with.
    pub fn to_byte(self) -> (r: u8)
        ensures
            r == (if self == Tile::Active {
                35u8
            } else {
                46u8
            }),
    {
        match self {
            Tile::Active => 35,
            Tile::Inactive => 46,
        }
    }
}

/// A rectangle of tiles stored row by row.
#[derive(Debug, Clone, PartialEq, Eq)]
pub struct Grid {
    pub data: Vec<Tile>,
    pub width: usize,
    pub height: usize,
}

proof fn lemma_cell(w: int, h: int, r: int, c: int)
    requires
        0 <= r < h <= 65536,
        0 <= c <= w <= 65536,
    ensures
        c < w ==> 0 <= r * w + c < w * h,
        (r + 1) * w <= w * h,
        0 <= r * w,
        r * w + w == (r + 1) * w,
        w * h <= 4294967296,
{
    assert(w * h <= 4294967296) by (nonlinear_arith)
        requires
            0 <= h <= 65536,
            0 <= w <= 65536,
    ;
    assert(r * w + w == (r + 1) * w) by (nonlinear_arith);
    if c < w {
        assert(r * w + c < w * h) by (nonlinear_arith)
            requires
                0 <= r < h,
                0 <= c < w,
        ;
    }
    assert((r + 1) * w <= w * h) by (nonlinear_arith)
        requires
            0 <= r < h,
            0 <= w,
    ;
    assert(0 <= r * w) by (nonlinear_arith)
        requires
            0 <= r,
            0 <= w,
    ;
}

/// Lit diagonal neighbours of the cell at row `r`, column `c`.
pub open spec fn lit_diagonals(g: Seq<Tile>, w: int, h: int, r: int, c: int) -> int {
    (if r > 0 && c > 0 && g[(r - 1) * w + c - 1] == Tile::Active {
        1int
    } else {
        0int
    }) + (if r > 0 && c + 1 < w && g[(r - 1) * w + c + 1] == Tile::Active {
        1int
    } else {
        0int
    }) + (if r + 1 < h && c > 0 && g[(r + 1) * w + c - 1] == Tile::Active {
        1int
    } else {
        0int
    }) + (if r + 1 < h && c + 1 < w && g[(r + 1) * w + c + 1] == Tile::Active {
        1int
    } else {
        0int
    })
}

/// The tile after one round: a lit tile stays lit with an odd number of lit
/// diagonals, a dark one lights up with an even number.
pub open spec fn next_tile(t: Tile, lit: int) -> Tile {
    if (t == Tile::Inactive && lit % 2 == 0) || (t == Tile::Active && lit % 2 == 1) {
        Tile::Active
    } else {
        Tile::Inactive
    }
}

impl Grid {
    pub open spec fn wf(&self) -> bool {
        &&& self.data@.len() == self.width * self.height
        &&& self.width <= 65536
        &&& self.height <= 65536
    }

    pub fn new(data: Vec<Tile>, width: usize, height: usize) -> (g: Grid)
        requires
            data@.len() == width * height,
            width <= 65536,
            height <= 65536,
        ensures
            g.wf(),
            g.data@ == data@,
            g.width == width,
            g.height == height,
    {
        Grid { data, width, height }
    }

    pub fn get(&self, r: usize, c: usize) -> (t: Tile)
        requires
            self.wf(),
            r < self.height,
            c < self.width,
        ensures
            t == self.data@[r * self.width + c],
    {
        proof {
            lemma_cell(self.width as int, self.height as int, r as int, c as int);
        }
        self.data[r * self.width + c]
    }

    /// Row `r`.
    pub fn row(&self, r: usize) -> (s: &[Tile])
        requires
            self.wf(),
            r < self.height,
        ensures
            s@ == self.data@.subrange(r * self.width, (r + 1) * self.width),
    {
        proof {
            lemma_cell(self.width as int, self.height as int, r as int, 0);
        }
        let n = self.data.len();
        let start = r * self.width;
        proof {
            assert(start + self.width <= n);
        }
        vstd::slice::slice_subrange(self.data.as_slice(), start, start + self.width)
    }

    /// Lit tiles.
    pub fn count_active(&self) -> (n: usize)
        ensures
            n <= self.data@.len(),
    {
        let mut n: usize = 0;
        let mut i: usize = 0;
        while i < self.data.len()
            invariant
                n <= i <= self.data@.len(),
            decreases self.data@.len() - i,
        {
            if self.data[i] == Tile::Active {
                n = n + 1;
            }
            i = i + 1;
        }
        n
    }

    /// `other` appears in this grid with its top left corner at `top_left`.
    pub fn slice_eq(&self, top_left: (usize, usize), other: &Grid) -> (r: bool)
        requires
            self.wf(),
            other.wf(),
            top_left.0 + other.height <= self.height,
            top_left.1 + other.width <= self.width,
        ensures
            r == forall|i: int, j: int|
                0 <= i < other.height && 0 <= j < other.width ==> #[trigger] other.data@[i * other.width + j]
                    == self.data@[(top_left.0 + i) * self.width + top_left.1 + j],
    {
        let mut i: usize = 0;
        while i < other.height
            invariant
                self.wf(),
                other.wf(),
                top_left.0 + other.height <= self.height,
                top_left.1 + other.width <= self.width,
                i <= other.height,
                forall|a: int, b: int|
                    0 <= a < i && 0 <= b < other.width ==> #[trigger] other.data@[a * other.width + b]
                        == self.data@[(top_left.0 + a) * self.width + top_left.1 + b],
            decreases other.height - i,
        {
            let mut j: usize = 0;
            while j < other.width
                invariant
                    self.wf(),
                    other.wf(),
                    top_left.0 + other.height <= self.height,
                    top_left.1 + other.width <= self.width,
                    i < other.height,
                    j <= other.width,
                    forall|a: int, b: int|
                        0 <= a < i && 0 <= b < other.width ==> #[trigger] other.data@[a * other.width + b]
                            == self.data@[(top_left.0 + a) * self.width + top_left.1 + b],
                    forall|b: int|
                        0 <= b < j ==> #[trigger] other.data@[i * other.width + b] == self.data@[(
                        top_left.0 + i) * self.width + top_left.1 + b],
                decreases other.width - j,
            {
                if other.get(i, j) != self.get(top_left.0 + i, top_left.1 + j) {
                    return false;
                }
                j = j + 1;
            }
            i = i + 1;
        }
        true
    }
}

/// Reads one row of tiles per line.
pub fn parse_grid(input: &str) -> (r: Result<Grid, ParseError>)
    ensures
        r matches Ok(g) ==> g.wf(),
{
    let b = input.as_bytes();
    let bounds = field_bounds(b, 10u8);
    let mut count = bounds.len();
    proof {
        crate::parse::lemma_split_fields_nonempty(b@, 10u8);
    }
    if bounds[count - 1].0 == bounds[count - 1].1 {
        count = count - 1;
    }
    if count == 0 || count > 65536 {
        return Err(ParseError::SyntaxError);
    }
    let width = bounds[0].1 - bounds[0].0;
    if width > 65536 {
        return Err(ParseError::SyntaxError);
    }
    let mut data: Vec<Tile> = Vec::new();
    let mut j: usize = 0;
    while j < count
        invariant
            1 <= count <= bounds@.len(),
            count <= 65536,
            width <= 65536,
            forall|k: int|
                0 <= k < bounds@.len() ==> (#[trigger] bounds@[k]).0 <= bounds@[k].1 <= b@.len(),
            j <= count,
            data@.len() == j * width,
        decreases count - j,
    {
        let (s0, e0) = bounds[j];
        if e0 - s0 != width {
            return Err(ParseError::SyntaxError);
        }
        let mut i: usize = s0;
        while i < e0
            invariant
                s0 <= i <= e0 <= b@.len(),
                e0 - s0 == width,
                data@.len() == j * width + (i - s0),
            decreases e0 - i,
        {
            let t = Tile::try_from(b[i])?;
            data.push(t);
            i = i + 1;
        }
        proof {
            assert((j + 1) * width == j * width + width) by (nonlinear_arith);
        }
        j = j + 1;
    }
    proof {
        assert(count * width == width * count) by (nonlinear_arith);
    }
    Ok(Grid::new(data, width, count))
}

/// One round of the floor: writes into `next` the tile after the round for every cell.
pub fn evolve(grid: &Grid, next: &mut Grid)
    requires
        grid.wf(),
        old(next).wf(),
        old(next).width == grid.width,
        old(next).height == grid.height,
    ensures
        final(next).wf(),
        final(next).width == grid.width,
        final(next).height == grid.height,
{
    let w = grid.width;
    let h = grid.height;
    let mut r: usize = 0;
    while r < h
        invariant
            grid.wf(),
            next.wf(),
            next.width == w,
            next.height == h,
            w == grid.width,
            h == grid.height,
            r <= h,
        decreases h - r,
    {
        let mut c: usize = 0;
        while c < w
            invariant
                grid.wf(),
                next.wf(),
                next.width == w,
                next.height == h,
                w == grid.width,
                h == grid.height,
                r < h,
                c <= w,
            decreases w - c,
        {
            let mut neighbors: u32 = 0;
            if r > 0 {
                if c > 0 && grid.get(r - 1, c - 1) == Tile::Active {
                    neighbors = neighbors + 1;
                }
                if c + 1 < w && grid.get(r - 1, c + 1) == Tile::Active {
                    neighbors = neighbors + 1;
                }
            }
            if r + 1 < h {
                if c > 0 && grid.get(r + 1, c - 1) == Tile::Active {
                    neighbors = neighbors + 1;
                }
                if c + 1 < w && grid.get(r + 1, c + 1) == Tile::Active {
                    neighbors = neighbors + 1;
                }
            }
            let here = grid.get(r, c);
            let t = if (here == Tile::Inactive && neighbors % 2 == 0) || (here == Tile::Active
                && neighbors % 2 == 1) {
                Tile::Active
            } else {
                Tile::Inactive
            };
            proof {
                lemma_cell(w as int, h as int, r as int, c as int);
                assert(t == next_tile(here, lit_diagonals(grid.data@, w as int, h as int, r as int, c as int)));
            }
            next.data.set(r * w + c, t);
            c = c + 1;
        }
        r = r + 1;
    }
}

/// Lit tiles summed over `turns` rounds, at most `usize::MAX`.
pub fn simulate(input: &Grid, turns: usize) -> (r: usize)
    requires
        input.wf(),
{
    let mut grid = copy_grid(input);
    let mut next = copy_grid(input);
    let mut count: usize = 0;
    let mut t: usize = 0;
    while t < turns
        invariant
            grid.wf(),
            next.wf(),
            grid.width == next.width,
            grid.height == next.height,
        decreases turns - t,
    {
        evolve(&grid, &mut next);
        let tmp = grid;
        grid = next;
        next = tmp;
        count = count.saturating_add(grid.count_active());
        t = t + 1;
    }
    count
}

/// A copy of the grid, tile by tile.
pub fn copy_grid(g: &Grid) -> (c: Grid)
    requires
        g.wf(),
    ensures
        c.wf(),
        c.data@ == g.data@,
        c.width == g.width,
        c.height == g.height,
{
    let mut data: Vec<Tile> = Vec::new();
    let mut i: usize = 0;
    while i < g.data.len()
        invariant
            i <= g.data@.len(),
            data@ == g.data@.subrange(0, i as int),
        decreases g.data@.len() - i,
    {
        data.push(g.data[i]);
        proof {
            assert(data@ =~= g.data@.subrange(0, i + 1));
        }
        i = i + 1;
    }
    proof {
        assert(g.data@.subrange(0, i as int) =~= g.data@);
    }
    Grid::new(data, g.width, g.height)
}

/// The tiles as bytes, for use as a key.
fn grid_key(g: &Grid) -> (k: Vec<u8>)
    ensures
        k@.len() == g.data@.len(),
{
    let mut k: Vec<u8> = Vec::new();
    let mut i: usize = 0;
    while i < g.data.len()
        invariant
            i <= g.data@.len(),
            k@.len() == i,
        decreases g.data@.len() - i,
    {
        k.push(g.data[i].to_byte());
        i = i + 1;
    }
    k
}

/// Side of the floor in part three.
pub const FLOOR: usize = 34;

/// Over `turns` rounds from a dark 34 by 34 floor, the lit tiles summed over the rounds
/// whose centre shows `target`; a repeated floor lets whole cycles be counted at once.
/// Sums are kept within `usize`.
pub fn simulate_matches(target: &Grid, turns: usize) -> (r: usize)
    requires
        target.wf(),
        target.width <= FLOOR,
        target.height <= FLOOR,
{
    let mut seen: HashMap<Vec<u8>, (usize, usize)> = HashMap::new();
    let mut data: Vec<Tile> = Vec::new();
    let mut i: usize = 0;
    while i < FLOOR * FLOOR
        invariant
            i <= FLOOR * FLOOR,
            data@.len() == i,
        decreases FLOOR * FLOOR - i,
    {
        data.push(Tile::Inactive);
        i = i + 1;
    }
    let mut grid = Grid::new(data, FLOOR, FLOOR);
    let mut next = copy_grid(&grid);
    let mut score: usize = 0;
    let top_left = ((FLOOR - target.height) / 2, (FLOOR - target.width) / 2);
    let mut time: usize = 0;
    while time < turns
        invariant
            grid.wf(),
            next.wf(),
            grid.width == FLOOR,
            grid.height == FLOOR,
            next.width == FLOOR,
            next.height == FLOOR,
            target.wf(),
            target.width <= FLOOR,
            target.height <= FLOOR,
            top_left.0 == (FLOOR - target.height) / 2,
            top_left.1 == (FLOOR - target.width) / 2,
            time <= turns,
        decreases turns - time,
    {
        evolve(&grid, &mut next);
        let tmp = grid;
        grid = next;
        next = tmp;
        time = time + 1;
        if grid.slice_eq(top_left, target) {
            score = score.saturating_add(grid.count_active());
        }
        let key = grid_key(&grid);
        let found = match seen.get(&key) {
            Some(v) => Some(*v),
            None => None,
        };
        if let Some((prev_time, prev_score)) = found {
            if prev_time < time {
                let cycle_len = time - prev_time;
                let cycle_value = if score >= prev_score {
                    score - prev_score
                } else {
                    0
                };
                let remaining_cycles = (turns - time) / cycle_len;
                if remaining_cycles > 0 {
                    proof {
                        assert(remaining_cycles * cycle_len <= turns - time) by (nonlinear_arith)
                            requires
                                remaining_cycles == (turns - time) / (cycle_len as int),
                                cycle_len > 0,
                                turns - time >= 0,
                        ;
                    }
                    let gain = match remaining_cycles.checked_mul(cycle_value) {
                        Some(g) => g,
                        None => usize::MAX,
                    };
                    score = score.saturating_add(gain);
                    time = time + remaining_cycles * cycle_len;
                }
            }
        }
        seen.insert(key, (time, score));
    }
    score
}

/// The floor puzzle: tiles that flip by the count of their lit diagonals.
pub struct Day14;

impl Day14 {
    pub fn parse(input: &str) -> (r: Result<Grid, ParseError>)
        ensures
            r matches Ok(g) ==> g.wf(),
    {
        parse_grid(input)
    }

    /// Lit tiles summed over ten rounds.
    pub fn part_1(input: &Grid) -> (r: usize)
        requires
            input.wf(),
    {
        simulate(input, 10)
    }

    /// Lit tiles summed over 2025 rounds.
    pub fn part_2(input: &Grid) -> (r: usize)
        requires
            input.wf(),
    {
        simulate(input, 2025)
    }

    /// Lit tiles summed over the rounds, of a billion, whose centre shows the pattern.
    pub fn part_3(input: &Grid) -> (r: usize)
        requires
            input.wf(),
            input.width <= FLOOR,
            input.height <= FLOOR,
    {
        simulate_matches(input, 1000000000)
    }
}

} // verus!

use vstd::prelude::*;
use vstd::string::StringSliceAdditionalSpecFns;
use crate::parse::{field_bounds, parse_unsigned};

verus! {

/// A move was not `L<n>` or `R<n>`.
#[derive(Debug, Clone, Copy, PartialEq, Eq)]
pub enum ParseError {
    SyntaxError,
    InvalidNumber,
}

/// Longest single move the search accepts: `2^20`.
pub const MAX_STEP: u64 = 1048576;

/// Most moves the search accepts.
pub const MAX_MOVES: usize = 4096;

/// Turn left or right, then walk `n` steps.
#[derive(Debug, Clone, Copy, PartialEq, Eq, Structural)]
pub enum Instruction {
    Left(u64),
    Right(u64),
}

/// A heading on the grid.
#[derive(Debug, Clone, Copy, PartialEq, Eq, Structural)]
pub enum Direction {
    Up,
    Right,
    Down,
    Left,
}

impl Direction {
    pub fn turn_left(self) -> (d: Direction)
        ensures
            d == (match self {
                Direction::Up => Direction::Left,
                Direction::Right => Direction::Up,
                Direction::Down => Direction::Right,
                Direction::Left => Direction::Down,
            }),
    {
        match self {
            Direction::Up => Direction::Left,
            Direction::Right => Direction::Up,
            Direction::Down => Direction::Right,
            Direction::Left => Direction::Down,
        }
    }

    pub fn turn_right(self) -> (d: Direction)
        ensures
            d == (match self {
                Direction::Up => Direction::Right,
                Direction::Right => Direction::Down,
                Direction::Down => Direction::Left,
                Direction::Left => Direction::Up,
            }),
    {
        match self {
            Direction::Up => Direction::Right,
            Direction::Right => Direction::Down,
            Direction::Down => Direction::Left,
            Direction::Left => Direction::Up,
        }
    }
}

/// Bound on coordinates reached by at most `MAX_MOVES` moves of at most `MAX_STEP`.
pub const COORD_BOUND: i64 = 4398046511104;

/// A point of the plane.
#[derive(Debug, Clone, Copy, PartialEq, Eq, Structural)]
pub struct Pos {
    pub x: i64,
    pub y: i64,
}

pub open spec fn iabs(a: int) -> int {
    if a >= 0 {
        a
    } else {
        -a
    }
}

impl Pos {
    pub fn new(x: i64, y: i64) -> (p: Pos)
        ensures
            p.x == x,
            p.y == y,
    {
        Pos { x, y }
    }

    /// Taxicab distance.
    pub fn manhattan_dist(self, other: Pos) -> (d: u64)
        requires
            iabs(self.x as int) <= COORD_BOUND,
            iabs(self.y as int) <= COORD_BOUND,
            iabs(other.x as int) <= COORD_BOUND,
            iabs(other.y as int) <= COORD_BOUND,
        ensures
            d == iabs(self.x - other.x) + iabs(self.y - other.y),
    {
        let dx = if self.x >= other.x {
            (self.x - other.x) as u64
        } else {
            (other.x - self.x) as u64
        };
        let dy = if self.y >= other.y {
            (self.y - other.y) as u64
        } else {
            (other.y - self.y) as u64
        };
        dx + dy
    }

    /// The point `len` steps away heading `dir`.
    pub fn moved(self, dir: Direction, len: i64) -> (p: Pos)
        requires
            iabs(self.x as int) + iabs(len as int) <= COORD_BOUND,
            iabs(self.y as int) + iabs(len as int) <= COORD_BOUND,
        ensures
            iabs(p.x as int) <= iabs(self.x as int) + iabs(len as int),
            iabs(p.y as int) <= iabs(self.y as int) + iabs(len as int),
            p.x == self.x || p.y == self.y,
    {
        match dir {
            Direction::Up => Pos { x: self.x, y: self.y - len },
            Direction::Right => Pos { x: self.x + len, y: self.y },
            Direction::Down => Pos { x: self.x, y: self.y + len },
            Direction::Left => Pos { x: self.x - len, y: self.y },
        }
    }
}

pub open spec fn bounded(p: Pos, b: int) -> bool {
    iabs(p.x as int) <= b && iabs(p.y as int) <= b
}

pub open spec fn moves_ok(ins: Seq<Instruction>) -> bool {
    &&& ins.len() <= MAX_MOVES
    &&& forall|i: int|
        0 <= i < ins.len() ==> match #[trigger] ins[i] {
            Instruction::Left(n) => n <= MAX_STEP,
            Instruction::Right(n) => n <= MAX_STEP,
        }
}

/// Sorts in increasing order and removes repeats.
pub fn sort_dedup(v: &mut Vec<i64>)
    ensures
        forall|i: int, j: int| 0 <= i < j < final(v)@.len() ==> final(v)@[i] < final(v)@[j],
        final(v)@.len() <= old(v)@.len(),
{
    let n = v.len();
    let mut i: usize = 1;
    if n == 0 {
        return;
    }
    while i < n
        invariant
            n == v@.len(),
            1 <= i <= n,
            forall|a: int, b: int| 0 <= a <= b < i ==> v@[a] <= v@[b],
        decreases n - i,
    {
        let mut j: usize = i;
        while j > 0 && v[j - 1] > v[j]
            invariant
                n == v@.len(),
                0 <= j <= i < n,
                forall|a: int, b: int| 0 <= a <= b <= i && a != j && b != j ==> v@[a] <= v@[b],
                forall|b: int| j < b <= i ==> v@[j as int] <= v@[b],
            decreases j,
        {
            let a = v[j - 1];
            let b = v[j];
            v.set(j - 1, b);
            v.set(j, a);
            j = j - 1;
        }
        i = i + 1;
    }
    let mut out: Vec<i64> = Vec::new();
    let mut k: usize = 0;
    while k < n
        invariant
            n == v@.len(),
            k <= n,
            forall|a: int, b: int| 0 <= a <= b < n ==> v@[a] <= v@[b],
            out@.len() <= k,
            forall|a: int, b: int| 0 <= a < b < out@.len() ==> out@[a] < out@[b],
            out@.len() > 0 ==> exists|q: int| 0 <= q < k && out@.last() == v@[q],
            out@.len() > 0 ==> forall|q: int| k <= q < n ==> out@.last() <= v@[q],
        decreases n - k,
    {
        let x = v[k];
        if out.len() == 0 || out[out.len() - 1] != x {
            out.push(x);
        }
        k = k + 1;
    }
    *v = out;
}

/// The first index of sorted `xs` whose value is at least `v`.
pub fn lower_bound(xs: &Vec<i64>, v: i64) -> (i: usize)
    ensures
        i <= xs@.len(),
{
    let mut i: usize = 0;
    while i < xs.len() && xs[i] < v
        invariant
            i <= xs@.len(),
        decreases xs@.len() - i,
    {
        i = i + 1;
    }
    i
}

/// The walk from the origin facing up: every point it passes, on a line with its
/// neighbours around each corner, so that a compressed grid keeps the walls apart.
pub fn compress_coordinates(instructions: &[Instruction]) -> (r: (Vec<i64>, Vec<i64>))
    requires
        moves_ok(instructions@),
    ensures
        r.0@.len() <= 4 * instructions@.len(),
        r.1@.len() <= 4 * instructions@.len(),
        forall|i: int, j: int| 0 <= i < j < r.0@.len() ==> r.0@[i] < r.0@[j],
        forall|i: int, j: int| 0 <= i < j < r.1@.len() ==> r.1@[i] < r.1@[j],
{
    let mut xs: Vec<i64> = Vec::new();
    let mut ys: Vec<i64> = Vec::new();
    let mut pos = Pos::new(0, 0);
    let mut dir = Direction::Up;
    let mut i: usize = 0;
    while i < instructions.len()
        invariant
            moves_ok(instructions@),
            i <= instructions@.len(),
            bounded(pos, i * (MAX_STEP as int)),
            xs@.len() <= 4 * i,
            ys@.len() <= 4 * i,
        decreases instructions@.len() - i,
    {
        let len = match instructions[i] {
            Instruction::Left(n) => {
                dir = dir.turn_left();
                n
            },
            Instruction::Right(n) => {
                dir = dir.turn_right();
                n
            },
        };
        proof {
            assert(instructions@[i as int] == instructions@[i as int]);
            assert(i * (MAX_STEP as int) + MAX_STEP as int == (i + 1) * (MAX_STEP as int)) by (nonlinear_arith);
            assert((i + 1) * (MAX_STEP as int) <= 4096 * 1048576) by (nonlinear_arith)
                requires
                    i < 4096,
            ;
        }
        let l = len as i64;
        let next = pos.moved(dir, l);
        let before = pos.moved(dir, -1);
        let after = next.moved(dir, 1);
        match dir {
            Direction::Left | Direction::Right => {
                xs.push(before.x);
                xs.push(pos.x);
                xs.push(next.x);
                xs.push(after.x);
                ys.push(pos.y - 1);
                ys.push(pos.y);
                ys.push(pos.y + 1);
            },
            Direction::Up | Direction::Down => {
                xs.push(pos.x - 1);
                xs.push(pos.x);
                xs.push(pos.x + 1);
                ys.push(before.y);
                ys.push(pos.y);
                ys.push(next.y);
                ys.push(after.y);
            },
        }
        pos = next;
        i = i + 1;
    }
    sort_dedup(&mut xs);
    sort_dedup(&mut ys);
    (xs, ys)
}

/// A min-heap of `(distance, cell)` pairs.
pub struct MinHeap {
    pub items: Vec<(u64, usize)>,
}

impl MinHeap {
    pub fn new() -> (h: MinHeap)
        ensures
            h.items@.len() == 0,
    {
        MinHeap { items: Vec::new() }
    }

    pub fn push(&mut self, item: (u64, usize))
        requires
            old(self).items@.len() < usize::MAX,
        ensures
            final(self).items@.len() == old(self).items@.len() + 1,
    {
        self.items.push(item);
        let mut i = self.items.len() - 1;
        while i > 0
            invariant
                i < self.items@.len(),
                self.items@.len() == old(self).items@.len() + 1,
            decreases i,
        {
            let parent = (i - 1) / 2;
            if self.items[parent].0 <= self.items[i].0 {
                break;
            }
            let a = self.items[parent];
            let b = self.items[i];
            self.items.set(parent, b);
            self.items.set(i, a);
            i = parent;
        }
    }

    /// Takes out an item of least distance.
    pub fn pop(&mut self) -> (r: Option<(u64, usize)>)
        ensures
            old(self).items@.len() == 0 ==> r is None && final(self).items@.len() == 0,
            old(self).items@.len() > 0 ==> r is Some && final(self).items@.len() == old(self).items@.len() - 1,
    {
        let n = self.items.len();
        if n == 0 {
            return None;
        }
        let top = self.items[0];
        let last = self.items[n - 1];
        self.items.set(0, last);
        self.items.pop();
        let m = self.items.len();
        let mut i: usize = 0;
        while i < m
            invariant
                m == self.items@.len(),
                m == n - 1,
            decreases m - i,
        {
            if m - i <= i + 1 {
                break;
            }
            let l = 2 * i + 1;
            let r = l + 1;
            let mut c = l;
            if r < m && self.items[r].0 < self.items[l].0 {
                c = r;
            }
            if self.items[i].0 <= self.items[c].0 {
                break;
            }
            let a = self.items[i];
            let b = self.items[c];
            self.items.set(i, b);
            self.items.set(c, a);
            i = c;
        }
        Some(top)
    }
}

/// Distance between the coordinates at indices `a` and `b`, at most `u64::MAX`.
fn span(v: &Vec<i64>, a: usize, b: usize) -> (d: u64)
    requires
        a < v@.len(),
        b < v@.len(),
    ensures
        d == (if iabs(v@[a as int] - v@[b as int]) > u64::MAX {
            u64::MAX as int
        } else {
            iabs(v@[a as int] - v@[b as int])
        }),
{
    let diff: i128 = v[a] as i128 - v[b] as i128;
    let m: i128 = if diff >= 0 {
        diff
    } else {
        -diff
    };
    if m > u64::MAX as i128 {
        u64::MAX
    } else {
        m as u64
    }
}

/// The walls of the walk on the compressed grid, and where the walk ends.
pub fn place_walls(instructions: &[Instruction], xs: &Vec<i64>, ys: &Vec<i64>) -> (r: (Vec<bool>, usize, usize))
    requires
        moves_ok(instructions@),
        xs@.len() * ys@.len() <= 0x10000000,
    ensures
        r.0@.len() == xs@.len() * ys@.len(),
{
    let nx = xs.len();
    let ny = ys.len();
    let mut walls: Vec<bool> = Vec::new();
    let mut k: usize = 0;
    while k < nx * ny
        invariant
            k <= nx * ny,
            nx * ny <= 0x10000000,
            walls@.len() == k,
        decreases nx * ny - k,
    {
        walls.push(false);
        k = k + 1;
    }
    let mut pos = Pos::new(0, 0);
    let mut dir = Direction::Up;
    let mut i: usize = 0;
    while i < instructions.len()
        invariant
            moves_ok(instructions@),
            i <= instructions@.len(),
            bounded(pos, i * (MAX_STEP as int)),
            walls@.len() == nx * ny,
            nx == xs@.len(),
            ny == ys@.len(),
            nx * ny <= 0x10000000,
        decreases instructions@.len() - i,
    {
        let len = match instructions[i] {
            Instruction::Left(n) => {
                dir = dir.turn_left();
                n
            },
            Instruction::Right(n) => {
                dir = dir.turn_right();
                n
            },
        };
        proof {
            assert(i * (MAX_STEP as int) + MAX_STEP as int == (i + 1) * (MAX_STEP as int)) by (nonlinear_arith);
            assert((i + 1) * (MAX_STEP as int) <= 4096 * 1048576) by (nonlinear_arith)
                requires
                    i < 4096,
            ;
        }
        let next = pos.moved(dir, len as i64);
        let (lo_x, hi_x, lo_y, hi_y) = match dir {
            Direction::Left | Direction::Right => {
                let a = lower_bound(xs, pos.x);
                let b = lower_bound(xs, next.x);
                let c = lower_bound(ys, pos.y);
                if a <= b {
                    (a, b, c, c)
                } else {
                    (b, a, c, c)
                }
            },
            Direction::Up | Direction::Down => {
                let a = lower_bound(ys, pos.y);
                let b = lower_bound(ys, next.y);
                let c = lower_bound(xs, pos.x);
                if a <= b {
                    (c, c, a, b)
                } else {
                    (c, c, b, a)
                }
            },
        };
        let mut xi = lo_x;
        while xi <= hi_x && xi < nx
            invariant
                walls@.len() == nx * ny,
                nx * ny <= 0x10000000,
            decreases nx - xi,
        {
            let mut yi = lo_y;
            while yi <= hi_y && yi < ny
                invariant
                    walls@.len() == nx * ny,
                    nx * ny <= 0x10000000,
                    xi < nx,
                decreases ny - yi,
            {
                proof {
                    assert(yi * nx + xi < nx * ny) by (nonlinear_arith)
                        requires
                            yi < ny,
                            xi < nx,
                    ;
                }
                walls.set(yi * nx + xi, true);
                yi = yi + 1;
            }
            xi = xi + 1;
        }
        pos = next;
        i = i + 1;
    }
    let gx = lower_bound(xs, pos.x);
    let gy = lower_bound(ys, pos.y);
    if gx < nx && gy < ny {
        proof {
            assert(gy * nx + gx < nx * ny) by (nonlinear_arith)
                requires
                    gy < ny,
                    gx < nx,
            ;
        }
        walls.set(gy * nx + gx, false);
    }
    (walls, gx, gy)
}

/// Fewest steps from the origin to the end of the walk without crossing the walls,
/// moving between neighbouring cells of the compressed grid; 0 where the end is out of reach.
pub fn find_path(instructions: &[Instruction]) -> (r: u64)
    requires
        moves_ok(instructions@),
{
    let (xs, ys) = compress_coordinates(instructions);
    let nx = xs.len();
    let ny = ys.len();
    proof {
        assert(nx * ny <= 16384 * 16384) by (nonlinear_arith)
            requires
                nx <= 16384,
                ny <= 16384,
        ;
    }
    let (walls, gx, gy) = place_walls(instructions, &xs, &ys);
    let sx = lower_bound(&xs, 0);
    let sy = lower_bound(&ys, 0);
    if sx >= nx || sy >= ny || gx >= nx || gy >= ny {
        return 0;
    }
    let cells = nx * ny;
    let mut dist: Vec<u64> = Vec::new();
    let mut k: usize = 0;
    while k < cells
        invariant
            k <= cells,
            dist@.len() == k,
        decreases cells - k,
    {
        dist.push(u64::MAX);
        k = k + 1;
    }
    proof {
        assert(sy * nx + sx < nx * ny) by (nonlinear_arith)
            requires
                sy < ny,
                sx < nx,
        ;
        assert(gy * nx + gx < nx * ny) by (nonlinear_arith)
            requires
                gy < ny,
                gx < nx,
        ;
    }
    let start = sy * nx + sx;
    let goal = gy * nx + gx;
    dist.set(start, 0);
    let mut heap = MinHeap::new();
    heap.push((0, start));
    let mut rounds: u64 = 0;
    while heap.items.len() > 0 && rounds < 0x10000000
        invariant
            dist@.len() == cells,
            cells == nx * ny,
            cells <= 0x10000000,
            walls@.len() == cells,
            xs@.len() == nx,
            ys@.len() == ny,
            goal < cells,
            heap.items@.len() <= 4 * rounds + 1,
            rounds <= 0x10000000,
        decreases 0x10000000 - rounds,
    {
        let (d, cell) = match heap.pop() {
            Some(item) => item,
            None => (0, 0),
        };
        rounds = rounds + 1;
        if cell >= cells {
            continue;
        }
        if dist[cell] < d {
            continue;
        }
        if cell == goal {
            return d;
        }
        let xi = cell % nx;
        let yi = cell / nx;
        proof {
            assert(yi < ny) by (nonlinear_arith)
                requires
                    cell < nx * ny,
                    yi == cell / nx,
                    nx > 0,
            ;
        }
        let mut dir: usize = 0;
        while dir < 4
            invariant
                dist@.len() == cells,
                cells == nx * ny,
                cells <= 0x10000000,
                walls@.len() == cells,
                xs@.len() == nx,
                ys@.len() == ny,
                heap.items@.len() + 4 <= 4 * rounds + dir,
                rounds >= 1,
                xi < nx,
                yi < ny,
                rounds <= 0x10000000,
                dir <= 4,
            decreases 4 - dir,
        {
            let (ok, x1, y1) = if dir == 0 {
                (xi > 0, if xi > 0 {
                    xi - 1
                } else {
                    0
                }, yi)
            } else if dir == 1 {
                (yi > 0, xi, if yi > 0 {
                    yi - 1
                } else {
                    0
                })
            } else if dir == 2 {
                (xi + 1 < nx, xi + 1, yi)
            } else {
                (yi + 1 < ny, xi, yi + 1)
            };
            if ok {
                proof {
                    assert(y1 * nx + x1 < nx * ny) by (nonlinear_arith)
                        requires
                            y1 < ny,
                            x1 < nx,
                    ;
                }
                let next = y1 * nx + x1;
                if !walls[next] {
                    let step = span(&xs, xi, x1) + span(&ys, yi, y1);
                    let nd = d.saturating_add(step);
                    if dist[next] > nd {
                        dist.set(next, nd);
                        heap.push((nd, next));
                    }
                }
            }
            dir = dir + 1;
        }
    }
    0
}

/// The maze puzzle: walls drawn by a walk, and the shortest way back to its end.
pub struct Day15;

impl Day15 {
    /// Reads the comma-separated moves.
    pub fn parse(input: &str) -> (r: Result<Vec<Instruction>, ParseError>)
        ensures
            r matches Ok(v) ==> v@.len() == crate::parse::split_fields(input.spec_bytes(), 44u8).len(),
    {
        let b = input.as_bytes();
        let parts = field_bounds(b, 44u8);
        let mut v: Vec<Instruction> = Vec::new();
        let mut k: usize = 0;
        while k < parts.len()
            invariant
                forall|q: int| 0 <= q < parts@.len() ==> (#[trigger] parts@[q]).0 <= parts@[q].1 <= b@.len(),
                k <= parts@.len(),
                v@.len() == k,
                parts@.len() == crate::parse::split_fields(b@, 44u8).len(),
            decreases parts@.len() - k,
        {
            let (s0, e0) = parts[k];
            if s0 == e0 {
                return Err(ParseError::SyntaxError);
            }
            let c = b[s0];
            let n = match parse_unsigned(b, s0 + 1, e0, u64::MAX) {
                Some(n) => n,
                None => {
                    return Err(ParseError::InvalidNumber);
                },
            };
            if c == 76u8 {
                v.push(Instruction::Left(n));
            } else if c == 82u8 {
                v.push(Instruction::Right(n));
            } else {
                return Err(ParseError::SyntaxError);
            }
            k = k + 1;
        }
        Ok(v)
    }

    /// Whether the moves are within the limits of the search.
    pub fn within_limits(input: &Vec<Instruction>) -> (r: bool)
        ensures
            r == moves_ok(input@),
    {
        if input.len() > MAX_MOVES {
            return false;
        }
        let mut i: usize = 0;
        while i < input.len()
            invariant
                i <= input@.len(),
                forall|q: int|
                    0 <= q < i ==> match #[trigger] input@[q] {
                        Instruction::Left(n) => n <= MAX_STEP,
                        Instruction::Right(n) => n <= MAX_STEP,
                    },
            decreases input@.len() - i,
        {
            let n = match input[i] {
                Instruction::Left(n) => n,
                Instruction::Right(n) => n,
            };
            if n > MAX_STEP {
                return false;
            }
            i = i + 1;
        }
        true
    }

    pub fn part_1(input: &Vec<Instruction>) -> (r: u64)
        requires
            moves_ok(input@),
    {
        find_path(input.as_slice())
    }

    pub fn part_2(input: &Vec<Instruction>) -> (r: u64)
        requires
            moves_ok(input@),
    {
        find_path(input.as_slice())
    }

    pub fn part_3(input: &Vec<Instruction>) -> (r: u64)
        requires
            moves_ok(input@),
    {
        find_path(input.as_slice())
    }
}

} // verus!

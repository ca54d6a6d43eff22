use vstd::prelude::*;
use crate::day_12::{count_set, lemma_count_set, lemma_count_set_le};
use crate::parse::{field_bounds, split_fields, split_lines};
use vstd::string::StringSliceAdditionalSpecFns;

verus! {

/// The six neighbours of a triangle.
#[derive(Debug, Clone, Copy, PartialEq, Eq, Structural)]
pub enum Direction {
    Up,
    UpRight,
    DownRight,
    Down,
    DownLeft,
    UpLeft,
}

impl Direction {
    pub fn all() -> (r: [Direction; 6])
        ensures
            r@ == seq![
                Direction::Up,
                Direction::UpRight,
                Direction::DownRight,
                Direction::Down,
                Direction::DownLeft,
                Direction::UpLeft,
            ],
    {
        let r = [
            Direction::Up,
            Direction::UpRight,
            Direction::DownRight,
            Direction::Down,
            Direction::DownLeft,
            Direction::UpLeft,
        ];
        proof {
            assert(r@ =~= seq![
                Direction::Up,
                Direction::UpRight,
                Direction::DownRight,
                Direction::Down,
                Direction::DownLeft,
                Direction::UpLeft,
            ]);
        }
        r
    }
}

/// Whether a triangle points up (`L`) or down (`R`) in its cell.
#[derive(Debug, Clone, Copy, PartialEq, Eq, Hash, Structural)]
pub enum Parity {
    L,
    R,
}

pub open spec fn parity_index(p: Parity) -> int {
    match p {
        Parity::L => 0,
        Parity::R => 1,
    }
}

impl Parity {
    pub fn flip(&mut self)
        ensures
            *final(self) != *old(self),
    {
        match *self {
            Parity::L => *self = Parity::R,
            Parity::R => *self = Parity::L,
        }
    }

    pub fn into_index(self) -> (r: usize)
        ensures
            r == parity_index(self),
    {
        match self {
            Parity::L => 0,
            Parity::R => 1,
        }
    }
}

/// A triangle of the grid: cell column `q`, row `r` and which half of the cell.
#[derive(Debug, Clone, Copy, PartialEq, Eq, Hash, Structural)]
pub struct Pos {
    pub q: usize,
    pub r: usize,
    pub parity: Parity,
}

impl Pos {
    /// The triangle lies inside a triangular grid of side `size`.
    pub open spec fn within(self, size: int) -> bool {
        self.r < size && (self.q < size - self.r - 1 || (self.q == size - self.r - 1 && self.parity
            == Parity::L))
    }

    pub open spec fn spec_index(self, size: int) -> int {
        2 * self.q + parity_index(self.parity) + self.r * (2 * size - self.r)
    }

    pub fn new(q: usize, r: usize, parity: Parity) -> (p: Pos)
        ensures
            p == (Pos { q, r, parity }),
    {
        Pos { q, r, parity }
    }

    /// The index of the triangle in the row-major data of a grid of side `size`.
    pub fn into_index(self, size: usize) -> (i: usize)
        requires
            self.within(size as int),
            size <= 65536,
        ensures
            i == self.spec_index(size as int),
            i < size * size,
    {
        proof {
            lemma_index_bound(self, size as int);
        }
        2 * self.q + self.parity.into_index() + self.r * (2 * size - self.r)
    }

    pub fn within_grid(self, size: usize) -> (b: bool)
        ensures
            b == self.within(size as int),
    {
        self.r < size && (self.q < size - self.r - 1 || (self.q == size - self.r - 1
            && self.parity == Parity::L))
    }

    /// The same triangle after turning the grid a third of a turn counterclockwise.
    pub fn rotate_ccw(self, size: usize) -> (p: Pos)
        requires
            self.within(size as int),
        ensures
            p.q == self.r,
            p.r == size - 1 - parity_index(self.parity) - self.q - self.r,
            p.parity == self.parity,
            p.within(size as int),
    {
        Pos { q: self.r, r: size - 1 - self.parity.into_index() - self.q - self.r, parity: self.parity }
    }

    /// The neighbour in direction `d`, if the triangle has one that way.
    pub fn add(self, d: Direction) -> (n: Option<Pos>)
        requires
            self.q < usize::MAX,
            self.r < usize::MAX,
        ensures
            n == (match (self.parity, d) {
                (Parity::L, Direction::Up) => if self.r > 0 {
                    Some(Pos { q: self.q, r: (self.r - 1) as usize, parity: Parity::R })
                } else {
                    None
                },
                (Parity::L, Direction::DownRight) => Some(Pos { parity: Parity::R, ..self }),
                (Parity::R, Direction::UpLeft) => Some(Pos { parity: Parity::L, ..self }),
                (Parity::L, Direction::DownLeft) => if self.q > 0 {
                    Some(Pos { q: (self.q - 1) as usize, r: self.r, parity: Parity::R })
                } else {
                    None
                },
                (Parity::R, Direction::UpRight) => Some(
                    Pos { q: (self.q + 1) as usize, r: self.r, parity: Parity::L },
                ),
                (Parity::R, Direction::Down) => Some(
                    Pos { q: self.q, r: (self.r + 1) as usize, parity: Parity::L },
                ),
                _ => None,
            }),
    {
        let mut p = self;
        match (self.parity, d) {
            (Parity::L, Direction::Up) => {
                if self.r > 0 {
                    p.r = self.r - 1;
                } else {
                    return None;
                }
            },
            (Parity::L, Direction::DownRight) => {},
            (Parity::R, Direction::UpLeft) => {},
            (Parity::L, Direction::DownLeft) => {
                if self.q > 0 {
                    p.q = self.q - 1;
                } else {
                    return None;
                }
            },
            (Parity::R, Direction::UpRight) => {
                p.q = self.q + 1;
            },
            (Parity::R, Direction::Down) => {
                p.r = self.r + 1;
            },
            _ => {
                return None;
            },
        }
        p.parity.flip();
        Some(p)
    }
}

proof fn lemma_index_bound(p: Pos, size: int)
    requires
        p.within(size),
        size <= 65536,
    ensures
        0 <= p.spec_index(size) < size * size,
        0 <= p.r * (2 * size - p.r) <= size * size,
        size * size <= 4294967296,
{
    assert(p.r * (2 * size - p.r) <= size * size) by (nonlinear_arith)
        requires
            0 <= p.r < size,
    ;
    assert(size * size <= 4294967296) by (nonlinear_arith)
        requires
            0 <= size <= 65536,
    ;
    let q = p.q as int;
    let r = p.r as int;
    let t = parity_index(p.parity);
    assert(0 <= r * (2 * size - r)) by (nonlinear_arith)
        requires
            0 <= r < size,
    ;
    assert(2 * q + t + r * (2 * size - r) < size * size) by (nonlinear_arith)
        requires
            0 <= r < size,
            0 <= t <= 1,
            q < size - r - 1 || (q == size - r - 1 && t == 0),
            q >= 0,
    ;
}

/// A triangle of side `size` cut into `size * size` small triangles, stored row by row.
#[derive(Debug)]
pub struct TriangularGrid<T> {
    data: Vec<T>,
    size: usize,
}

impl<T> TriangularGrid<T> {
    pub closed spec fn spec_size(&self) -> int {
        self.size as int
    }

    pub closed spec fn spec_data(&self) -> Seq<T> {
        self.data@
    }

    pub fn new(data: Vec<T>, size: usize) -> (g: TriangularGrid<T>)
        requires
            data@.len() == size * size,
        ensures
            g.spec_size() == size,
            g.spec_data() == data@,
    {
        TriangularGrid { data, size }
    }

    /// Every triangle of the grid, row by row, left to right.
    pub fn positions(&self) -> (v: Vec<Pos>)
        requires
            self.spec_size() <= 65536,
        ensures
            forall|i: int| 0 <= i < v@.len() ==> (#[trigger] v@[i]).within(self.spec_size()),
            forall|i: int| 0 <= i < v@.len() ==> (#[trigger] v@[i]).spec_index(self.spec_size()) == i,
            v@.len() == self.spec_size() * self.spec_size(),
    {
        let size = self.size;
        let mut v: Vec<Pos> = Vec::new();
        let mut r: usize = 0;
        while r < size
            invariant
                size == self.spec_size(),
                size <= 65536,
                r <= size,
                v@.len() == r * (2 * size - r),
                forall|i: int| 0 <= i < v@.len() ==> (#[trigger] v@[i]).within(size as int),
                forall|i: int| 0 <= i < v@.len() ==> (#[trigger] v@[i]).spec_index(size as int) == i,
            decreases size - r,
        {
            let mut q: usize = 0;
            while q < size - r - 1
                invariant
                    size == self.spec_size(),
                    size <= 65536,
                    r < size,
                    q <= size - r - 1,
                    v@.len() == r * (2 * size - r) + 2 * q,
                    forall|i: int| 0 <= i < v@.len() ==> (#[trigger] v@[i]).within(size as int),
                    forall|i: int| 0 <= i < v@.len() ==> (#[trigger] v@[i]).spec_index(size as int) == i,
                decreases size - r - 1 - q,
            {
                v.push(Pos::new(q, r, Parity::L));
                v.push(Pos::new(q, r, Parity::R));
                q = q + 1;
            }
            v.push(Pos::new(size - r - 1, r, Parity::L));
            proof {
                assert(r * (2 * size - r) + 2 * (size - r - 1) + 1 == (r + 1) * (2 * size - (r + 1))) by (nonlinear_arith);
            }
            r = r + 1;
        }
        proof {
            assert(size * (2 * size - size) == size * size) by (nonlinear_arith);
        }
        v
    }

    pub fn size(&self) -> (n: usize)
        ensures
            n == self.spec_size(),
    {
        self.size
    }

    pub fn data_len(&self) -> (n: usize)
        ensures
            n == self.spec_data().len(),
    {
        self.data.len()
    }

    /// The value at a triangle of the grid.
    pub fn get(&self, pos: Pos) -> (t: &T)
        requires
            self.spec_data().len() == self.spec_size() * self.spec_size(),
            self.spec_size() <= 65536,
            pos.within(self.spec_size()),
        ensures
            *t == self.spec_data()[pos.spec_index(self.spec_size())],
    {
        &self.data[pos.into_index(self.size)]
    }
}


/// The text was not a triangle of `#`, `T`, `S` and `E` padded with `.`.
#[derive(Debug, Clone, Copy, PartialEq, Eq)]
pub enum ParseError {
    InvalidTile,
    ShapeError,
}

/// A triangle of the field.
#[derive(Debug, Clone, Copy, PartialEq, Eq, Hash, Structural)]
pub enum Tile {
    Hole,
    Trampoline,
    Start,
    End,
}

impl Tile {
    pub fn is_passable(self) -> (r: bool)
        ensures
            r == (self != Tile::Hole),
    {
        !(self == Tile::Hole)
    }

    pub fn try_from(value: u8) -> (r: Result<Tile, ParseError>)
        ensures
            r is Err <==> !(value == 35u8 || value == 84u8 || value == 83u8 || value == 69u8),
    {
        if value == 35u8 {
            Ok(Tile::Hole)
        } else if value == 84u8 {
            Ok(Tile::Trampoline)
        } else if value == 83u8 {
            Ok(Tile::Start)
        } else if value == 69u8 {
            Ok(Tile::End)
        } else {
            Err(ParseError::InvalidTile)
        }
    }
}

/// A byte that names a tile.
pub open spec fn tile_byte(x: u8) -> bool {
    x == 35u8 || x == 84u8 || x == 83u8 || x == 69u8
}

/// Lines of a triangle: `size` lines (1 to 65536) of `2 * size - 1` bytes, line `r`
/// holding `r` dots on each side and tiles between.
pub open spec fn triangle_lines(lines: Seq<Seq<u8>>) -> bool {
    let size = lines.len() as int;
    &&& 1 <= size <= 65536
    &&& forall|r: int| 0 <= r < size ==> #[trigger] lines[r].len() == 2 * size - 1
    &&& forall|r: int, i: int|
        0 <= r < size && 0 <= i < 2 * size - 1 ==> if i < r || i >= 2 * size - 1 - r {
            #[trigger] lines[r][i] == 46u8
        } else {
            tile_byte(lines[r][i])
        }
}

/// Reads the triangle: row `r` of `size` rows holds `2 * (size - r) - 1` tiles between
/// `r` dots on each side. Succeeds exactly on such text.
pub fn parse_triangle(input: &str) -> (r: Result<TriangularGrid<Tile>, ParseError>)
    ensures
        r is Ok <==> triangle_lines(split_lines(input.spec_bytes())),
        r matches Ok(g) ==> g.spec_data().len() == g.spec_size() * g.spec_size() && g.spec_size() <= 65536
            && g.spec_size() == split_lines(input.spec_bytes()).len(),
{
    let b = input.as_bytes();
    let ghost sb = input.spec_bytes();
    let ghost f = split_fields(sb, 10u8);
    let ghost ls = split_lines(sb);
    let lines = field_bounds(b, 10u8);
    let mut size = lines.len();
    proof {
        crate::parse::lemma_split_fields_nonempty(b@, 10u8);
    }
    if lines[size - 1].0 == lines[size - 1].1 {
        size = size - 1;
        proof {
            assert(f.last().len() == 0);
        }
    } else {
        proof {
            assert(f.last().len() != 0);
        }
    }
    proof {
        assert(ls.len() == size);
        assert forall|j: int| 0 <= j < size implies #[trigger] ls[j] == b@.subrange(
            lines@[j].0 as int,
            lines@[j].1 as int,
        ) by {
            assert(ls[j] == f[j]);
        }
    }
    if size == 0 || size > 65536 {
        return Err(ParseError::ShapeError);
    }
    let mut data: Vec<Tile> = Vec::new();
    let mut r: usize = 0;
    while r < size
        invariant
            b@ == sb,
            sb == input.spec_bytes(),
            ls == split_lines(sb),
            ls.len() == size,
            1 <= size <= 65536,
            size <= lines@.len(),
            forall|q: int| 0 <= q < lines@.len() ==> (#[trigger] lines@[q]).0 <= lines@[q].1 <= b@.len(),
            forall|q: int| 0 <= q < size ==> #[trigger] ls[q] == sb.subrange(lines@[q].0 as int, lines@[q].1 as int),
            r <= size,
            data@.len() == r * (2 * size - r),
            forall|q: int| 0 <= q < r ==> #[trigger] ls[q].len() == 2 * size - 1,
            forall|q: int, i: int|
                0 <= q < r && 0 <= i < 2 * size - 1 ==> if i < q || i >= 2 * size - 1 - q {
                    #[trigger] ls[q][i] == 46u8
                } else {
                    tile_byte(ls[q][i])
                },
        decreases size - r,
    {
        let (s0, e0) = lines[r];
        proof {
            assert(ls[r as int].len() == e0 - s0);
        }
        if e0 - s0 != 2 * size - 1 {
            proof {
                assert(!triangle_lines(ls)) by {
                    if triangle_lines(ls) {
                        assert(ls[r as int].len() == 2 * size - 1);
                    }
                }
            }
            return Err(ParseError::ShapeError);
        }
        let ghost line = ls[r as int];
        let mut i: usize = 0;
        while i < 2 * size - 1
            invariant
                b@ == sb,
                sb == input.spec_bytes(),
                ls == split_lines(sb),
                ls.len() == size,
                line == ls[r as int],
                line == sb.subrange(s0 as int, e0 as int),
                1 <= size <= 65536,
                r < size,
                e0 - s0 == 2 * size - 1,
                s0 <= e0 <= b@.len(),
                i <= 2 * size - 1,
                forall|k: int| 0 <= k < i ==> if k < r || k >= 2 * size - 1 - r {
                    #[trigger] line[k] == 46u8
                } else {
                    tile_byte(line[k])
                },
                data@.len() == r * (2 * size - r) + if i <= r {
                    0
                } else if i <= 2 * size - 1 - r {
                    i - r
                } else {
                    2 * size - 1 - 2 * r
                },
            decreases 2 * size - 1 - i,
        {
            let ch = b[s0 + i];
            proof {
                assert(line[i as int] == ch);
            }
            if i < r || i >= 2 * size - 1 - r {
                if ch != 46u8 {
                    proof {
                        assert(!triangle_lines(ls)) by {
                            if triangle_lines(ls) {
                                assert(ls[r as int][i as int] == 46u8);
                            }
                        }
                    }
                    return Err(ParseError::ShapeError);
                }
            } else {
                let t = match Tile::try_from(ch) {
                    Ok(t) => t,
                    Err(e) => {
                        proof {
                            assert(!triangle_lines(ls)) by {
                                if triangle_lines(ls) {
                                    assert(tile_byte(ls[r as int][i as int]));
                                }
                            }
                        }
                        return Err(e);
                    },
                };
                data.push(t);
            }
            i = i + 1;
        }
        proof {
            assert(r * (2 * size - r) + (2 * size - 1 - 2 * r) == (r + 1) * (2 * size - (r + 1))) by (nonlinear_arith);
        }
        r = r + 1;
    }
    proof {
        assert(size * (2 * size - size) == size * size) by (nonlinear_arith);
    }
    Ok(TriangularGrid::new(data, size))
}

/// The first triangle, row by row, that holds `tile`.
pub fn find_tile(input: &TriangularGrid<Tile>, tile: Tile) -> (r: Option<Pos>)
    requires
        input.spec_data().len() == input.spec_size() * input.spec_size(),
        input.spec_size() <= 65536,
    ensures
        r matches Some(p) ==> p.within(input.spec_size()),
{
    let all = input.positions();
    let mut i: usize = 0;
    while i < all.len()
        invariant
            input.spec_data().len() == input.spec_size() * input.spec_size(),
            input.spec_size() <= 65536,
            forall|k: int| 0 <= k < all@.len() ==> (#[trigger] all@[k]).within(input.spec_size()),
        decreases all@.len() - i,
    {
        if *input.get(all[i]) == tile {
            return Some(all[i]);
        }
        i = i + 1;
    }
    None
}

/// Fewest jumps from the start to the end between passable neighbouring triangles;
/// with `rotate`, the field turns a third of a turn after every jump, and staying put
/// is a jump too. 0 where the end cannot be reached.
pub fn find_path(input: &TriangularGrid<Tile>, rotate: bool) -> (r: u64)
    requires
        input.spec_data().len() == input.spec_size() * input.spec_size(),
        input.spec_size() <= 65536,
    ensures
        r == 0 || r < input.spec_size() * input.spec_size(),
{
    let size = input.size();
    let start = match find_tile(input, Tile::Start) {
        Some(p) => p,
        None => {
            return 0;
        },
    };
    let end = match find_tile(input, Tile::End) {
        Some(p) => p,
        None => {
            return 0;
        },
    };
    let cells = input.data_len();
    let mut visited: Vec<bool> = Vec::new();
    let mut k: usize = 0;
    while k < cells
        invariant
            k <= cells,
            visited@.len() == k,
            count_set(visited@) == 0,
            forall|j: int| 0 <= j < k ==> !#[trigger] visited@[j],
        decreases cells - k,
    {
        let ghost before = visited@;
        visited.push(false);
        proof {
            assert(visited@.drop_last() =~= before);
        }
        k = k + 1;
    }
    let si = start.into_index(size);
    proof {
        lemma_count_set(visited@, si as int);
    }
    visited.set(si, true);
    let mut pending: Vec<(Pos, u64)> = Vec::new();
    pending.push((start, 0));
    let mut head: usize = 0;
    while head < pending.len()
        invariant
            input.spec_data().len() == input.spec_size() * input.spec_size(),
            size == input.spec_size(),
            size <= 65536,
            cells == size * size,
            visited@.len() == cells,
            forall|q: int| 0 <= q < pending@.len() ==> (#[trigger] pending@[q]).0.within(size as int),
            count_set(visited@) <= cells,
            head <= pending@.len(),
            forall|q: int| 0 <= q < pending@.len() ==> (#[trigger] pending@[q]).1 < count_set(visited@),
        decreases cells - count_set(visited@), pending@.len() - head,
    {
        let ghost cnt0 = count_set(visited@);
        let ghost len0 = pending@.len();
        let (pos, dist) = pending[head];
        head = head + 1;
        if pos == end {
            return dist;
        }
        let dirs = Direction::all();
        let mut d: usize = 0;
        while d < 7
            invariant
                input.spec_data().len() == input.spec_size() * input.spec_size(),
                size == input.spec_size(),
                size <= 65536,
                cells == size * size,
                visited@.len() == cells,
                pos.within(size as int),
                forall|q: int| 0 <= q < pending@.len() ==> (#[trigger] pending@[q]).0.within(size as int),
                count_set(visited@) <= cells,
                count_set(visited@) >= cnt0,
                count_set(visited@) == cnt0 ==> pending@.len() == len0,
                head <= pending@.len(),
                dist < cnt0,
                forall|q: int| 0 <= q < pending@.len() ==> (#[trigger] pending@[q]).1 < count_set(visited@),
            decreases 7 - d,
        {
            let cand: Option<Pos> = if d < 6 {
                match pos.add(dirs[d]) {
                    Some(p) => if p.within_grid(size) {
                        Some(p)
                    } else {
                        None
                    },
                    None => None,
                }
            } else if rotate {
                Some(pos)
            } else {
                None
            };
            if let Some(p0) = cand {
                let next = if rotate {
                    p0.rotate_ccw(size)
                } else {
                    p0
                };
                if input.get(next).is_passable() {
                    let ni = next.into_index(size);
                    if !visited[ni] {
                        proof {
                            lemma_count_set(visited@, ni as int);
                        }
                        visited.set(ni, true);
                        pending.push((next, dist.saturating_add(1)));
                    }
                }
            }
            d = d + 1;
        }
    }
    0
}

/// The trampoline puzzle: jumps over a triangular field.
pub struct Day20;

impl Day20 {
    pub fn parse(input: &str) -> (r: Result<TriangularGrid<Tile>, ParseError>)
        ensures
            r is Ok <==> triangle_lines(split_lines(input.spec_bytes())),
            r matches Ok(g) ==> g.spec_data().len() == g.spec_size() * g.spec_size() && g.spec_size() <= 65536,
    {
        parse_triangle(input)
    }

    /// Pairs of neighbouring trampolines.
    pub fn part_1(input: &TriangularGrid<Tile>) -> (r: usize)
        requires
            input.spec_data().len() == input.spec_size() * input.spec_size(),
            input.spec_size() <= 65536,
    {
        let size = input.size();
        let all = input.positions();
        let dirs = Direction::all();
        let mut count: usize = 0;
        let mut i: usize = 0;
        while i < all.len()
            invariant
                input.spec_data().len() == input.spec_size() * input.spec_size(),
                size == input.spec_size(),
                size <= 65536,
                forall|k: int| 0 <= k < all@.len() ==> (#[trigger] all@[k]).within(size as int),
            decreases all@.len() - i,
        {
            let pos = all[i];
            if *input.get(pos) == Tile::Trampoline {
                let mut d: usize = 0;
                while d < 6
                    invariant
                        input.spec_data().len() == input.spec_size() * input.spec_size(),
                        size == input.spec_size(),
                        size <= 65536,
                        pos.within(size as int),
                    decreases 6 - d,
                {
                    if let Some(p1) = pos.add(dirs[d]) {
                        if p1.within_grid(size) && *input.get(p1) == Tile::Trampoline {
                            count = count.saturating_add(1);
                        }
                    }
                    d = d + 1;
                }
            }
            i = i + 1;
        }
        count / 2
    }

    /// Fewest jumps from the start to the end.
    pub fn part_2(input: &TriangularGrid<Tile>) -> (r: u64)
        requires
            input.spec_data().len() == input.spec_size() * input.spec_size(),
            input.spec_size() <= 65536,
        ensures
            r == 0 || r < input.spec_size() * input.spec_size(),
    {
        find_path(input, false)
    }

    /// Fewest jumps from the start to the end while the field turns after each jump.
    pub fn part_3(input: &TriangularGrid<Tile>) -> (r: u64)
        requires
            input.spec_data().len() == input.spec_size() * input.spec_size(),
            input.spec_size() <= 65536,
        ensures
            r == 0 || r < input.spec_size() * input.spec_size(),
    {
        find_path(input, true)
    }
}

} // verus!

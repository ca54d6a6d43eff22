use vstd::prelude::*;
use vstd::string::StringSliceAdditionalSpecFns;
use crate::parse::{field_bounds, lemma_split_fields_nonempty, split_fields, split_lines};
use vstd::arithmetic::power::{pow, lemma_pow_positive, lemma_pow_increases};
use vstd::arithmetic::div_mod::lemma_fundamental_div_mod_converse;
use std::collections::HashMap;

verus! {

/// The grid text was not a well-formed board.
#[derive(Debug, Clone, Copy, PartialEq, Eq)]
pub enum ParseError {
    SyntaxError,
}

/// A cell of the board, by row and column.
#[derive(Debug, Clone, Copy, PartialEq, Eq, Hash, Structural)]
pub struct Pos {
    pub row: u8,
    pub col: u8,
}

impl Pos {
    pub fn new(row: usize, col: usize) -> (p: Pos)
        requires
            row < 256,
            col < 256,
        ensures
            p.row == row,
            p.col == col,
    {
        Pos { row: row as u8, col: col as u8 }
    }

    /// The cell `rows` rows above this one, if there is one.
    pub fn sub_row(self, rows: usize) -> (r: Option<Pos>)
        requires
            rows < 256,
        ensures
            r == (if rows <= self.row {
                Some(Pos { row: (self.row - rows) as u8, col: self.col })
            } else {
                None
            }),
    {
        if rows as u8 <= self.row {
            Some(Pos { row: self.row - rows as u8, col: self.col })
        } else {
            None
        }
    }

    /// Row-major index of this cell on a board `width` cells wide.
    pub fn into_index(self, width: usize) -> (i: usize)
        requires
            self.row * width + self.col <= usize::MAX,
        ensures
            i == self.row * width + self.col,
    {
        self.row as usize * width + self.col as usize
    }
}

/// Column and row offsets of the eight knight moves, in the order they are tried.
pub open spec fn knight_offset(k: int) -> (int, int) {
    if k == 0 {
        (-1, -2)
    } else if k == 1 {
        (1, -2)
    } else if k == 2 {
        (-2, -1)
    } else if k == 3 {
        (2, -1)
    } else if k == 4 {
        (-2, 1)
    } else if k == 5 {
        (2, 1)
    } else if k == 6 {
        (-1, 2)
    } else {
        (1, 2)
    }
}

/// The `k`-th knight move from `p` on a `w` by `h` board, unless it leaves the board.
pub open spec fn knight_dest(w: int, h: int, p: Pos, k: int) -> Option<Pos> {
    let c1 = p.col + knight_offset(k).0;
    let r1 = p.row + knight_offset(k).1;
    if 0 <= c1 < w && 0 <= r1 < h && c1 < 256 && r1 < 256 {
        Some(Pos { row: r1 as u8, col: c1 as u8 })
    } else {
        None
    }
}

/// The `k`-th knight move from `origin`, for `k < 8`, if it stays on the board.
pub fn knight_move(origin: Pos, width: usize, height: usize, k: usize) -> (r: Option<Pos>)
    requires
        k < 8,
    ensures
        r == knight_dest(width as int, height as int, origin, k as int),
{
    let dc: i16 = if k == 0 || k == 6 {
        -1
    } else if k == 1 || k == 7 {
        1
    } else if k == 2 || k == 4 {
        -2
    } else {
        2
    };
    let dr: i16 = if k == 0 || k == 1 {
        -2
    } else if k == 2 || k == 3 {
        -1
    } else if k == 4 || k == 5 {
        1
    } else {
        2
    };
    let c1: i16 = origin.col as i16 + dc;
    let r1: i16 = origin.row as i16 + dr;
    if 0 <= c1 && (c1 as usize) < width && 0 <= r1 && (r1 as usize) < height && c1 < 256 && r1
        < 256 {
        Some(Pos { row: r1 as u8, col: c1 as u8 })
    } else {
        None
    }
}


/// Proves that a cell of a `w` by `h` board has an index below `w * h`.
proof fn lemma_cell_index(w: int, h: int, r: int, c: int)
    requires
        0 <= r < h <= 256,
        0 <= c < w <= 256,
    ensures
        0 <= r * w + c < w * h,
        r * w + c + 1 <= w * h,
        w * h <= 65536,
{
    assert(w * h <= 65536) by (nonlinear_arith)
        requires
            0 <= h <= 256,
            0 <= w <= 256,
    ;
    assert(r * w + c < w * h) by (nonlinear_arith)
        requires
            0 <= r < h,
            0 <= c < w,
    ;
    assert(0 <= r * w) by (nonlinear_arith)
        requires
            0 <= r,
            0 <= c < w,
    ;
}

/// A grid byte is `.`, `#`, `S` or `D`.
pub open spec fn valid_cell(x: u8) -> bool {
    x == 46u8 || x == 35u8 || x == 83u8 || x == 68u8
}

/// The playing field: its size, the dragon's start, the sheep and the hideouts.
#[derive(Debug, Clone, PartialEq, Eq)]
pub struct Board {
    width: usize,
    height: usize,
    dragon: Pos,
    sheep: Vec<bool>,
    blocked: Vec<bool>,
}

impl Board {
    pub closed spec fn wf(&self) -> bool {
        &&& 1 <= self.width <= 256
        &&& 1 <= self.height <= 256
        &&& self.sheep@.len() == self.width * self.height
        &&& self.blocked@.len() == self.width * self.height
        &&& self.dragon.row < self.height
        &&& self.dragon.col < self.width
    }

    pub closed spec fn spec_width(&self) -> int {
        self.width as int
    }

    pub closed spec fn spec_height(&self) -> int {
        self.height as int
    }

    pub closed spec fn spec_dragon(&self) -> Pos {
        self.dragon
    }

    pub closed spec fn sheep_cells(&self) -> Seq<bool> {
        self.sheep@
    }

    pub closed spec fn blocked_cells(&self) -> Seq<bool> {
        self.blocked@
    }

    pub open spec fn in_bounds(&self, p: Pos) -> bool {
        p.row < self.spec_height() && p.col < self.spec_width()
    }

    /// Whether the cell `p` is a hideout.
    pub open spec fn blocked_at(&self, p: Pos) -> bool {
        self.blocked_cells()[p.row * self.spec_width() + p.col]
    }

    /// Whether a sheep starts on the cell `p`.
    pub open spec fn sheep_at(&self, p: Pos) -> bool {
        self.sheep_cells()[p.row * self.spec_width() + p.col]
    }

    pub fn width(&self) -> (r: usize)
        ensures
            r == self.spec_width(),
    {
        self.width
    }

    pub fn height(&self) -> (r: usize)
        ensures
            r == self.spec_height(),
    {
        self.height
    }

    pub fn dragon(&self) -> (r: Pos)
        ensures
            r == self.spec_dragon(),
    {
        self.dragon
    }

    pub fn has_sheep_at(&self, pos: Pos) -> (r: bool)
        requires
            self.wf(),
            self.in_bounds(pos),
        ensures
            r == self.sheep_at(pos),
    {
        proof {
            lemma_cell_index(self.width as int, self.height as int, pos.row as int, pos.col as int);
        }
        self.sheep[pos.into_index(self.width)]
    }

    pub fn is_blocked(&self, pos: Pos) -> (r: bool)
        requires
            self.wf(),
            self.in_bounds(pos),
        ensures
            r == self.blocked_at(pos),
    {
        proof {
            lemma_cell_index(self.width as int, self.height as int, pos.row as int, pos.col as int);
        }
        self.blocked[pos.into_index(self.width)]
    }

    pub fn dragon_moves(&self, dragon: Pos) -> (r: DragonMoves)
        ensures
            r.wf(),
            r.origin == dragon,
            r.width == self.spec_width(),
            r.height == self.spec_height(),
            r.index == 0,
    {
        DragonMoves::new(dragon, self.width, self.height)
    }

    /// Reads a grid of `.` (open), `#` (hideout), `S` (sheep) and one `D` (dragon),
    /// one row per line (a last line break is allowed), all rows as long as the first.
    /// Succeeds exactly on such grids of 1 to 256 rows and columns.
    pub fn parse(s: &str) -> (res: Result<Board, ParseError>)
        ensures
            res is Ok <==> well_formed_grid(s.spec_bytes()),
            res matches Ok(b) ==> {
                let lines = split_lines(s.spec_bytes());
                &&& b.wf()
                &&& b.spec_height() == lines.len()
                &&& b.spec_width() == lines[0].len()
                &&& forall|r: int, c: int|
                    0 <= r < b.spec_height() && 0 <= c < b.spec_width() ==> {
                        &&& b.sheep_cells()[r * b.spec_width() + c] == (#[trigger] lines[r][c] == 83u8)
                        &&& b.blocked_cells()[r * b.spec_width() + c] == (lines[r][c] == 35u8)
                    }
                &&& lines[b.spec_dragon().row as int][b.spec_dragon().col as int] == 68u8
            },
    {
        let bytes = s.as_bytes();
        let ghost sb = s.spec_bytes();
        let ghost f = split_fields(sb, 10u8);
        let ghost lines = split_lines(sb);
        let bounds = field_bounds(bytes, 10u8);
        proof {
            lemma_split_fields_nonempty(sb, 10u8);
        }
        let mut count = bounds.len();
        if bounds[count - 1].0 == bounds[count - 1].1 {
            count = count - 1;
            proof {
                assert(f.last().len() == 0);
            }
        } else {
            proof {
                assert(f.last().len() != 0);
            }
        }
        proof {
            assert(lines.len() == count);
            assert forall|j: int| 0 <= j < count implies #[trigger] lines[j] == bytes@.subrange(
                bounds@[j].0 as int,
                bounds@[j].1 as int,
            ) by {
                assert(lines[j] == f[j]);
            }
        }
        if count == 0 || count > 256 {
            return Err(ParseError::SyntaxError);
        }
        let width = bounds[0].1 - bounds[0].0;
        if width == 0 || width > 256 {
            return Err(ParseError::SyntaxError);
        }
        let mut dragon: Pos = Pos { row: 0, col: 0 };
        let mut dcount: usize = 0;
        let mut sheep: Vec<bool> = Vec::new();
        let mut blocked: Vec<bool> = Vec::new();
        let mut j: usize = 0;
        while j < count
            invariant
                bytes@ == sb,
                sb == s.spec_bytes(),
                lines == split_lines(sb),
                1 <= count <= 256,
                count == lines.len(),
                count <= bounds@.len(),
                forall|q: int| 0 <= q < bounds@.len() ==> (#[trigger] bounds@[q]).0 <= bounds@[q].1 <= sb.len(),
                forall|q: int| 0 <= q < count ==> #[trigger] lines[q] == sb.subrange(bounds@[q].0 as int, bounds@[q].1 as int),
                width == lines[0].len(),
                1 <= width <= 256,
                j <= count,
                forall|q: int| 0 <= q < j ==> #[trigger] lines[q].len() == width,
                forall|q: int, c: int| 0 <= q < j && 0 <= c < lines[q].len() ==> valid_cell(#[trigger] lines[q][c]),
                dcount == min2(dragons(lines, j as int)),
                dcount >= 1 ==> dragon.row < j && dragon.col < width && lines[dragon.row as int][dragon.col as int] == 68u8,
                sheep@.len() == j * width,
                blocked@.len() == j * width,
                forall|r: int, c: int| 0 <= r < j && 0 <= c < width ==> {
                    &&& sheep@[r * width + c] == (#[trigger] lines[r][c] == 83u8)
                    &&& blocked@[r * width + c] == (lines[r][c] == 35u8)
                },
            decreases count - j,
        {
            let (s0, e0) = bounds[j];
            proof {
                assert(lines[j as int].len() == e0 - s0);
            }
            if e0 - s0 != width {
                proof {
                    assert(lines[j as int].len() != lines[0].len());
                    assert(!well_formed_grid(s.spec_bytes())) by {
                        if well_formed_grid(sb) {
                            assert(well_formed_lines(lines));
                            assert(lines[j as int].len() == lines[0].len());
                        }
                    }
                }
                return Err(ParseError::SyntaxError);
            }
            let ghost line = lines[j as int];
            let mut c: usize = 0;
            while c < width
                invariant
                    bytes@ == sb,
                    sb == s.spec_bytes(),
                    s0 <= e0 <= sb.len(),
                    e0 - s0 == width,
                    line == sb.subrange(s0 as int, e0 as int),
                    line == lines[j as int],
                    lines == split_lines(sb),
                    count == lines.len(),
                    width == lines[0].len(),
                    1 <= width <= 256,
                    j < count <= 256,
                    c <= width,
                    forall|q: int| 0 <= q < c ==> valid_cell(#[trigger] line[q]),
                    dcount == min2(dragons(lines, j as int) + count_d(line.subrange(0, c as int))),
                    dcount >= 1 ==> dragon.row <= j && dragon.col < width && lines[dragon.row as int][dragon.col as int] == 68u8,
                    sheep@.len() == j * width + c,
                    blocked@.len() == j * width + c,
                    forall|r: int, q: int| 0 <= r < j && 0 <= q < width ==> {
                        &&& sheep@[r * width + q] == (#[trigger] lines[r][q] == 83u8)
                        &&& blocked@[r * width + q] == (lines[r][q] == 35u8)
                    },
                    forall|q: int| 0 <= q < c ==> {
                        &&& sheep@[j * width + q] == (#[trigger] line[q] == 83u8)
                        &&& blocked@[j * width + q] == (line[q] == 35u8)
                    },
                decreases width - c,
            {
                let ch = bytes[s0 + c];
                proof {
                    assert(line[c as int] == ch);
                    assert(line.subrange(0, c + 1).drop_last() =~= line.subrange(0, c as int));
                }
                if ch != 46u8 && ch != 35u8 && ch != 83u8 && ch != 68u8 {
                    proof {
                        assert(!valid_cell(lines[j as int][c as int]));
                        assert(line.len() == width);
                        assert(c < lines[j as int].len());
                        assert(!well_formed_grid(s.spec_bytes())) by {
                            if well_formed_grid(sb) {
                                assert(well_formed_lines(lines));
                                assert(valid_cell(lines[j as int][c as int]));
                            }
                        }
                    }
                    return Err(ParseError::SyntaxError);
                }
                if ch == 68u8 {
                    if dcount == 0 {
                        dragon = Pos::new(j, c);
                    }
                    if dcount < 2 {
                        dcount = dcount + 1;
                    }
                }
                proof {
                    assert((j * width + c) + 1 == j * width + (c + 1));
                    lemma_cell_index(width as int, count as int, j as int, c as int);
                }
                let ghost sh0 = sheep@;
                let ghost bl0 = blocked@;
                sheep.push(ch == 83u8);
                blocked.push(ch == 35u8);
                proof {
                    assert forall|r: int, q: int| 0 <= r < j && 0 <= q < width implies {
                        &&& sheep@[r * width + q] == (#[trigger] lines[r][q] == 83u8)
                        &&& blocked@[r * width + q] == (lines[r][q] == 35u8)
                    } by {
                        assert(r * width + q < j * width) by (nonlinear_arith)
                            requires
                                0 <= r < j,
                                0 <= q < width,
                        ;
                        assert(sheep@[r * width + q] == sh0[r * width + q]);
                        assert(blocked@[r * width + q] == bl0[r * width + q]);
                    }
                }
                c = c + 1;
            }
            proof {
                assert(line.subrange(0, width as int) =~= line);
                assert((j + 1) * width == j * width + width) by (nonlinear_arith);
                assert forall|r: int, q: int| 0 <= r < j + 1 && 0 <= q < width implies {
                    &&& sheep@[r * width + q] == (#[trigger] lines[r][q] == 83u8)
                    &&& blocked@[r * width + q] == (lines[r][q] == 35u8)
                } by {
                    if r == j {
                        assert(lines[r][q] == line[q]);
                    }
                }
            }
            j = j + 1;
        }
        if dcount != 1 {
            return Err(ParseError::SyntaxError);
        }
        proof {
            assert(count * width == width * count) by (nonlinear_arith);
        }
        Ok(Board { width, height: count, dragon, sheep, blocked })
    }
}

/// Sheep rows, capped at two.
pub open spec fn min2(x: nat) -> nat {
    if x >= 2 {
        2
    } else {
        x
    }
}

/// Dragons on one line.
pub open spec fn count_d(line: Seq<u8>) -> nat
    decreases line.len(),
{
    if line.len() == 0 {
        0
    } else {
        count_d(line.drop_last()) + if line.last() == 68u8 {
            1nat
        } else {
            0nat
        }
    }
}

/// Dragons on the first `j` lines.
pub open spec fn dragons(lines: Seq<Seq<u8>>, j: int) -> nat
    decreases j,
{
    if j <= 0 {
        0
    } else {
        dragons(lines, j - 1) + count_d(lines[j - 1])
    }
}

/// A grid text: its lines form a well-formed grid.
pub open spec fn well_formed_grid(s: Seq<u8>) -> bool {
    well_formed_lines(split_lines(s))
}

/// Lines of a grid text: 1 to 256 of equal length from 1 to 256, only `.`, `#`, `S`
/// and `D`, and exactly one `D`.
pub open spec fn well_formed_lines(lines: Seq<Seq<u8>>) -> bool {
    &&& 1 <= lines.len() <= 256
    &&& 1 <= lines[0].len() <= 256
    &&& forall|j: int| 0 <= j < lines.len() ==> #[trigger] lines[j].len() == lines[0].len()
    &&& forall|j: int, c: int|
        0 <= j < lines.len() && 0 <= c < lines[j].len() ==> valid_cell(#[trigger] lines[j][c])
    &&& dragons(lines, lines.len() as int) == 1
}

/// The knight moves from one cell, produced one at a time in the fixed order.
#[derive(Debug, Clone)]
pub struct DragonMoves {
    pub origin: Pos,
    pub width: usize,
    pub height: usize,
    pub index: usize,
}

/// The first move index at or after `i` whose destination lies on the board, or 8.
pub open spec fn next_move_index(w: int, h: int, origin: Pos, i: int) -> int
    decreases 8 - i,
{
    if i >= 8 {
        8
    } else if knight_dest(w, h, origin, i) is Some {
        i
    } else {
        next_move_index(w, h, origin, i + 1)
    }
}

impl DragonMoves {
    pub open spec fn wf(&self) -> bool {
        self.index <= 8
    }

    pub fn new(origin: Pos, width: usize, height: usize) -> (r: DragonMoves)
        ensures
            r.wf(),
            r.origin == origin,
            r.width == width,
            r.height == height,
            r.index == 0,
    {
        DragonMoves { origin, width, height, index: 0 }
    }

    /// The next destination on the board, skipping those that fall off it.
    pub fn next(&mut self) -> (r: Option<Pos>)
        requires
            old(self).wf(),
        ensures
            final(self).wf(),
            final(self).origin == old(self).origin,
            final(self).width == old(self).width,
            final(self).height == old(self).height,
            ({
                let j = next_move_index(
                    old(self).width as int,
                    old(self).height as int,
                    old(self).origin,
                    old(self).index as int,
                );
                if j < 8 {
                    &&& r == knight_dest(
                        old(self).width as int,
                        old(self).height as int,
                        old(self).origin,
                        j,
                    )
                    &&& final(self).index == j + 1
                } else {
                    r is None && final(self).index == 8
                }
            }),
            r matches Some(p) ==> final(self).index > old(self).index && knight_dest(
                final(self).width as int,
                final(self).height as int,
                final(self).origin,
                final(self).index - 1,
            ) == Some(p),
            r is None ==> final(self).index == 8,
    {
        while self.index < 8
            invariant
                self.wf(),
                self.origin == old(self).origin,
                self.width == old(self).width,
                self.height == old(self).height,
                next_move_index(
                    self.width as int,
                    self.height as int,
                    self.origin,
                    self.index as int,
                ) == next_move_index(
                    old(self).width as int,
                    old(self).height as int,
                    old(self).origin,
                    old(self).index as int,
                ),
                self.index >= old(self).index,
            decreases 8 - self.index,
        {
            let m = knight_move(self.origin, self.width, self.height, self.index);
            self.index = self.index + 1;
            if m.is_some() {
                return m;
            }
        }
        None
    }
}


// ---------------------------------------------------------------------------
// The game: a mathematical model of the turn rules and of the outcome count.
// ---------------------------------------------------------------------------

/// Scans column `c` upward from row `r - 1` and returns one past the lowest open
/// cell: a sheep at or below that row stays on hideouts until it leaves the board.
/// A column with no open cell yields the height.
pub open spec fn safe_scan(b: &Board, c: int, r: int) -> int
    decreases r,
{
    if r <= 0 {
        b.spec_height()
    } else if !b.blocked_at(Pos { row: (r - 1) as u8, col: c as u8 }) {
        r
    } else {
        safe_scan(b, c, r - 1)
    }
}

/// The row from which a sheep of column `c` can no longer be caught.
pub open spec fn safe_row(b: &Board, c: int) -> int {
    safe_scan(b, c, b.spec_height())
}

/// The topmost sheep of column `c` at row `r` or below.
pub open spec fn first_sheep_scan(b: &Board, c: int, r: int) -> Option<u8>
    decreases b.spec_height() - r,
{
    if r >= b.spec_height() || r < 0 {
        None
    } else if b.sheep_at(Pos { row: r as u8, col: c as u8 }) {
        Some(r as u8)
    } else {
        first_sheep_scan(b, c, r + 1)
    }
}

/// The sheep row of each column at the start of the game.
pub open spec fn initial_prey(b: &Board) -> Seq<Option<u8>> {
    Seq::new(b.spec_width() as nat, |c: int| first_sheep_scan(b, c, 0))
}

/// Every sheep has escaped or been eaten.
pub open spec fn all_gone(p: Seq<Option<u8>>) -> bool {
    forall|c: int| 0 <= c < p.len() ==> #[trigger] p[c] is None
}

/// The dragon stands, outside a hideout, on the cell below the sheep at row `r` of column `c`.
pub open spec fn blocks_step(b: &Board, d: Pos, c: int, r: int) -> bool {
    d.col == c && d.row == r + 1 && !b.blocked_at(d)
}

/// The sheep of column `c` has a legal move (which may be an escape).
pub open spec fn can_step(b: &Board, d: Pos, p: Seq<Option<u8>>, c: int) -> bool {
    p[c] is Some && !blocks_step(b, d, c, p[c]->0 as int)
}

/// A sheep of column `c` that reaches row `r1` leaves the game.
pub open spec fn escapes(b: &Board, c: int, r1: int) -> bool {
    r1 >= b.spec_height() || r1 >= safe_row(b, c)
}

/// Moving the sheep of column `c` one row down is a move that stays in play.
pub open spec fn steps_in_play(b: &Board, d: Pos, p: Seq<Option<u8>>, c: int) -> bool {
    can_step(b, d, p, c) && !escapes(b, c, p[c]->0 + 1)
}

/// Sheep remain but none can move: the dragon moves twice.
pub open spec fn stuck(b: &Board, d: Pos, p: Seq<Option<u8>>) -> bool {
    !all_gone(p) && forall|c: int| 0 <= c < p.len() ==> !#[trigger] can_step(b, d, p, c)
}

/// The sheep rows after the sheep of column `c` moves down one row.
pub open spec fn stepped(p: Seq<Option<u8>>, c: int) -> Seq<Option<u8>> {
    p.update(c, Some((p[c]->0 + 1) as u8))
}

/// The sheep rows after the dragon lands on `d1`: a sheep there, outside a hideout, is eaten.
pub open spec fn captured(b: &Board, d1: Pos, p: Seq<Option<u8>>) -> Seq<Option<u8>> {
    if !b.blocked_at(d1) && d1.col < p.len() && p[d1.col as int] == Some(d1.row) {
        p.update(d1.col as int, None)
    } else {
        p
    }
}

pub open spec fn cell_left(h: int, o: Option<u8>) -> nat {
    match o {
        Some(r) => if r < h {
            (h - r) as nat
        } else {
            0
        },
        None => 0,
    }
}

/// Rows still to walk, summed over the sheep in play.
pub open spec fn rows_left(h: int, p: Seq<Option<u8>>) -> nat
    decreases p.len(),
{
    if p.len() == 0 {
        0
    } else {
        rows_left(h, p.drop_last()) + cell_left(h, p.last())
    }
}

/// Number of sheep still in play.
pub open spec fn live_count(p: Seq<Option<u8>>) -> nat
    decreases p.len(),
{
    if p.len() == 0 {
        0
    } else {
        live_count(p.drop_last()) + if p.last() is Some {
            1nat
        } else {
            0nat
        }
    }
}

pub open spec fn prey_measure(b: &Board, d: Pos, p: Seq<Option<u8>>) -> int {
    4 * rows_left(b.spec_height(), p) + if stuck(b, d, p) {
        3int
    } else {
        1int
    }
}

pub open spec fn pred_measure(b: &Board, d: Pos, p: Seq<Option<u8>>) -> int {
    4 * rows_left(b.spec_height(), p) + if stuck(b, d, p) {
        2int
    } else {
        4int
    }
}

/// Changing one entry changes the rows left by the difference of the two entries.
pub proof fn lemma_rows_left_update(h: int, p: Seq<Option<u8>>, c: int, v: Option<u8>)
    requires
        0 <= c < p.len(),
    ensures
        rows_left(h, p.update(c, v)) + cell_left(h, p[c]) == rows_left(h, p) + cell_left(h, v),
    decreases p.len(),
{
    let q = p.update(c, v);
    if c == p.len() - 1 {
        assert(q.drop_last() =~= p.drop_last());
    } else {
        lemma_rows_left_update(h, p.drop_last(), c, v);
        assert(q.drop_last() =~= p.drop_last().update(c, v));
    }
}

/// Changing one entry changes the live count by the difference of the two entries.
proof fn lemma_live_count_update(p: Seq<Option<u8>>, c: int, v: Option<u8>)
    requires
        0 <= c < p.len(),
    ensures
        live_count(p.update(c, v)) + (if p[c] is Some {
            1int
        } else {
            0int
        }) == live_count(p) + (if v is Some {
            1int
        } else {
            0int
        }),
    decreases p.len(),
{
    let q = p.update(c, v);
    if c == p.len() - 1 {
        assert(q.drop_last() =~= p.drop_last());
    } else {
        lemma_live_count_update(p.drop_last(), c, v);
        assert(q.drop_last() =~= p.drop_last().update(c, v));
    }
}

/// A sheep move that stays in play lowers the measure by one whole step.
pub proof fn lemma_prey_step_decreases(b: &Board, d: Pos, p: Seq<Option<u8>>, c: int)
    requires
        b.wf(),
        0 <= c < p.len(),
        steps_in_play(b, d, p, c),
    ensures
        pred_measure(b, d, stepped(p, c)) < prey_measure(b, d, p),
{
    let h = b.spec_height();
    lemma_rows_left_update(h, p, c, Some((p[c]->0 + 1) as u8));
}

/// A dragon move never raises the rows left, and it ends a double move.
pub proof fn lemma_pred_step_decreases(b: &Board, d: Pos, p: Seq<Option<u8>>, k: int, d1: Pos)
    requires
        0 <= k < 8,
        !all_gone(p),
        knight_dest(b.spec_width(), b.spec_height(), d, k) == Some(d1),
    ensures
        prey_measure(b, d1, captured(b, d1, p)) < pred_measure(b, d, p),
{
    let h = b.spec_height();
    let q = captured(b, d1, p);
    if q != p {
        lemma_rows_left_update(h, p, d1.col as int, None);
    }
    assert(rows_left(h, q) <= rows_left(h, p));
    if stuck(b, d, p) {
        let c0 = choose|c: int| 0 <= c < p.len() && !(#[trigger] p[c] is None);
        assert(!can_step(b, d, p, c0));
        assert(d1.col != d.col);
        assert(q[c0] == p[c0]);
        assert(can_step(b, d1, q, c0));
    }
}

/// Outcomes counted from a state where the sheep are to move.
pub open spec fn prey_turn(b: &Board, d: Pos, p: Seq<Option<u8>>) -> nat
    decreases prey_measure(b, d, p), p.len() + 2
        when b.wf()
{
    if all_gone(p) {
        1
    } else {
        prey_branches(b, d, p, 0) + if stuck(b, d, p) {
            pred_turn(b, d, p)
        } else {
            0
        }
    }
}

/// Sum of the outcomes over the sheep moves of columns `c` and up.
pub open spec fn prey_branches(b: &Board, d: Pos, p: Seq<Option<u8>>, c: int) -> nat
    decreases prey_measure(b, d, p), p.len() + 1 - c
        when b.wf()
{
    if c < 0 || c >= p.len() {
        0
    } else {
        let here = if steps_in_play(b, d, p, c) {
            proof {
                lemma_prey_step_decreases(b, d, p, c);
            }
            pred_turn(b, d, stepped(p, c))
        } else {
            0
        };
        here + prey_branches(b, d, p, c + 1)
    }
}

/// Outcomes counted from a state where the dragon is to move.
pub open spec fn pred_turn(b: &Board, d: Pos, p: Seq<Option<u8>>) -> nat
    decreases pred_measure(b, d, p), 10int
        when b.wf()
{
    if all_gone(p) {
        1
    } else {
        pred_branches(b, d, p, 0)
    }
}

/// Sum of the outcomes over the dragon moves numbered `k` and up.
pub open spec fn pred_branches(b: &Board, d: Pos, p: Seq<Option<u8>>, k: int) -> nat
    decreases pred_measure(b, d, p), 9 - k
        when b.wf()
{
    if k < 0 || k >= 8 || all_gone(p) {
        0
    } else {
        let here = match knight_dest(b.spec_width(), b.spec_height(), d, k) {
            Some(d1) => {
                proof {
                    lemma_pred_step_decreases(b, d, p, k, d1);
                }
                prey_turn(b, d1, captured(b, d1, p))
            },
            None => 0,
        };
        here + pred_branches(b, d, p, k + 1)
    }
}


// ---------------------------------------------------------------------------
// Keys of the transposition cache.
// ---------------------------------------------------------------------------

/// A search state that fits the board: the dragon on it, one entry per column,
/// every sheep on a row of the board.
pub open spec fn state_ok(b: &Board, d: Pos, p: Seq<Option<u8>>) -> bool {
    &&& b.in_bounds(d)
    &&& p.len() == b.spec_width()
    &&& forall|c: int| 0 <= c < p.len() && (#[trigger] p[c]) is Some ==> p[c]->0 < b.spec_height()
}

pub open spec fn digit(o: Option<u8>) -> int {
    match o {
        Some(r) => r + 1,
        None => 0,
    }
}

pub open spec fn undigit(x: int) -> Option<u8> {
    if x == 0 {
        None
    } else {
        Some((x - 1) as u8)
    }
}

/// Radix of the edge keys of the memo: a digit is at most 256.
pub const RADIX: u128 = 257;

/// Count slots per sheep-row sequence: the dragon's cell (below 65536) and whose turn it is.
pub const SLOTS: u128 = 131072;

/// The sheep rows as digits: 0 for a sheep gone, `r + 1` for a sheep on row `r`.
pub open spec fn digits(p: Seq<Option<u8>>) -> Seq<usize> {
    p.map_values(|o: Option<u8>| digit(o) as usize)
}

pub open spec fn undigits(s: Seq<usize>) -> Seq<Option<u8>> {
    s.map_values(|x: usize| undigit(x as int))
}

/// The count slot of a state within its sheep-row sequence.
pub open spec fn slot_of(b: &Board, dragon_turn: bool, d: Pos) -> int {
    (d.row * b.spec_width() + d.col) * 2 + if dragon_turn {
        1int
    } else {
        0int
    }
}

/// The key of the edge from the sequence numbered `parent` by one more digit `d`.
pub open spec fn edge_key(parent: u128, d: usize) -> int {
    parent * RADIX + d
}

/// The transposition cache. Each sheep-row sequence met is numbered through a trie
/// of edges (`edges`: parent number and digit to child number, the empty sequence
/// being 0); `counts` maps a number and a slot to the outcome count of that state.
/// Numbers never exceed the number of edges, so keys need no bound on the board.
pub struct Memo {
    pub edges: HashMap<u128, u128>,
    pub counts: HashMap<u128, u64>,
    pub labels: Ghost<Map<u128, Seq<usize>>>,
    pub ids: Ghost<Map<Seq<usize>, u128>>,
}

impl Memo {
    /// `labels` and `ids` are inverse numberings, closed under prefixes, and the
    /// edges are exactly the one-digit steps between numbered sequences.
    #[verifier::opaque]
    pub open spec fn wf(&self) -> bool {
        &&& self.ids@.contains_key(Seq::<usize>::empty())
        &&& self.ids@[Seq::<usize>::empty()] == 0
        &&& self.edges@.len() <= usize::MAX
        &&& forall|s: Seq<usize>|
            #[trigger] self.ids@.contains_key(s) ==> self.labels@.contains_key(self.ids@[s])
                && self.labels@[self.ids@[s]] == s
        &&& forall|i: u128|
            #[trigger] self.labels@.contains_key(i) ==> self.ids@.contains_key(self.labels@[i])
                && self.ids@[self.labels@[i]] == i && i <= self.edges@.len()
        &&& forall|s: Seq<usize>|
            #[trigger] self.ids@.contains_key(s) && s.len() > 0 ==> {
                &&& self.ids@.contains_key(s.drop_last())
                &&& s.last() < RADIX
                &&& self.edges@.contains_key(edge_key(self.ids@[s.drop_last()], s.last()) as u128)
                &&& self.edges@[edge_key(self.ids@[s.drop_last()], s.last()) as u128] == self.ids@[s]
            }
        &&& forall|e: u128|
            #[trigger] self.edges@.contains_key(e) ==> {
                &&& self.labels@.contains_key((e / RADIX) as u128)
                &&& self.labels@.contains_key(self.edges@[e])
                &&& self.labels@[self.edges@[e]] == self.labels@[(e / RADIX) as u128].push(
                    (e % RADIX) as usize,
                )
            }
    }

    /// Every stored count is the outcome count of the state its key stands for.
    #[verifier::opaque]
    pub open spec fn ok(&self, b: &Board) -> bool {
        forall|k: u128|
            #[trigger] self.counts@.contains_key(k) ==> self.labels@.contains_key((k / SLOTS) as u128)
                && self.counts@[k] == count_at(b, self.labels@[(k / SLOTS) as u128], (k % SLOTS) as int)
    }

    /// The stored count of a state, if any.
    pub open spec fn lookup(&self, b: &Board, dragon_turn: bool, d: Pos, p: Seq<Option<u8>>) -> Option<u64> {
        let k = (self.ids@[digits(p)] * SLOTS + slot_of(b, dragon_turn, d)) as u128;
        if self.ids@.contains_key(digits(p)) && self.counts@.contains_key(k) {
            Some(self.counts@[k])
        } else {
            None
        }
    }

    /// `later` keeps every number and every count of this memo.
    #[verifier::opaque]
    pub open spec fn extends(&self, later: &Memo) -> bool {
        &&& forall|s: Seq<usize>|
            #[trigger] self.ids@.contains_key(s) ==> later.ids@.contains_key(s) && later.ids@[s]
                == self.ids@[s]
        &&& forall|i: u128|
            #[trigger] self.labels@.contains_key(i) ==> later.labels@.contains_key(i)
                && later.labels@[i] == self.labels@[i]
        &&& forall|k: u128|
            #[trigger] self.counts@.contains_key(k) ==> later.counts@.contains_key(k)
                && later.counts@[k] == self.counts@[k]
    }

    /// Nothing in the memo changed.
    pub open spec fn same(&self, later: &Memo) -> bool {
        &&& later.edges@ == self.edges@
        &&& later.counts@ == self.counts@
        &&& later.labels@ == self.labels@
        &&& later.ids@ == self.ids@
    }

    pub fn new() -> (m: Memo)
        ensures
            m.wf(),
            m.counts@.len() == 0,
            m.edges@.len() == 0,
    {
        broadcast use vstd::std_specs::hash::group_hash_axioms;

        let ghost l = Map::<u128, Seq<usize>>::empty().insert(0u128, Seq::<usize>::empty());
        let ghost i = Map::<Seq<usize>, u128>::empty().insert(Seq::<usize>::empty(), 0u128);
        let m = Memo { edges: HashMap::new(), counts: HashMap::new(), labels: Ghost(l), ids: Ghost(i) };
        proof {
            reveal(Memo::wf);
            assert(m.edges@ == Map::<u128, u128>::empty());
            assert(m.edges@.len() == 0);
        }
        m
    }

    /// The number of the sequence of sheep rows `p`, numbering it first if needed.
    pub fn intern(&mut self, p: &Vec<Option<u8>>) -> (id: u128)
        requires
            old(self).wf(),
        ensures
            final(self).wf(),
            old(self).extends(&*final(self)),
            final(self).counts@ == old(self).counts@,
            final(self).ids@.contains_key(digits(p@)),
            id == final(self).ids@[digits(p@)],
            id <= usize::MAX,
            old(self).ids@.contains_key(digits(p@)) ==> old(self).same(&*final(self)),
    {
        broadcast use vstd::std_specs::hash::group_hash_axioms;

        let ghost full = digits(p@);
        proof {
            reveal(Memo::wf);
            reveal(Memo::extends);
            if old(self).ids@.contains_key(full) {
                lemma_prefixes_numbered(*old(self), full, full.len() as int);
            }
        }
        let mut cur: u128 = 0;
        let mut c: usize = 0;
        let n0 = self.edges.len();
        proof {
            assert(full.subrange(0, 0) =~= Seq::<usize>::empty());
        }
        while c < p.len()
            invariant
                self.wf(),
                old(self).extends(&*self),
                self.counts@ == old(self).counts@,
                full == digits(p@),
                c <= p@.len(),
                self.ids@.contains_key(full.subrange(0, c as int)),
                cur == self.ids@[full.subrange(0, c as int)],
                cur <= usize::MAX,
                old(self).ids@.contains_key(full) ==> old(self).same(&*self),
                old(self).ids@.contains_key(full) ==> forall|j: int|
                    0 <= j <= full.len() ==> #[trigger] old(self).ids@.contains_key(full.subrange(0, j)),
            decreases p@.len() - c,
        {
            proof {
                reveal(Memo::wf);
                reveal(Memo::extends);
            }
            let dg: usize = match p[c] {
                Some(r) => r as usize + 1,
                None => 0,
            };
            let ghost pre = full.subrange(0, c as int);
            let ghost next = full.subrange(0, c + 1);
            proof {
                assert(full[c as int] == dg);
                assert(next =~= pre.push(dg));
                assert(next.drop_last() =~= pre);
            }
            let key: u128 = cur * 257 + dg as u128;
            proof {
                vstd::arithmetic::div_mod::lemma_fundamental_div_mod_converse(
                    key as int,
                    RADIX as int,
                    cur as int,
                    dg as int,
                );
            }
            match self.edges.get(&key) {
                Some(child) => {
                    proof {
                        assert(self.edges@.contains_key(key));
                        assert(self.labels@[*child] == pre.push(dg));
                    }
                    cur = *child;
                },
                None => {
                    proof {
                        if self.ids@.contains_key(next) {
                            assert(next.last() == dg);
                        }
                        assert(!self.ids@.contains_key(next));
                    }
                    let n = self.edges.len();
                    let fresh: u128 = n as u128 + 1;
                    let ghost e_old = self.edges@;
                    self.edges.insert(key, fresh);
                    proof {
                        assert(!e_old.contains_key(key));
                        assert(self.edges@.dom() =~= e_old.dom().insert(key));
                        assert(self.edges@.len() == e_old.len() + 1);
                        assert(!self.labels@.contains_key(fresh));
                    }
                    let ghost nl = self.labels@.insert(fresh, next);
                    let ghost ni = self.ids@.insert(next, fresh);
                    self.labels = Ghost(nl);
                    self.ids = Ghost(ni);
                    let n1 = self.edges.len();
                    proof {
                        assert(fresh <= n1);
                        assert forall|e: u128| #[trigger] self.edges@.contains_key(e) implies {
                            &&& self.labels@.contains_key((e / RADIX) as u128)
                            &&& self.labels@.contains_key(self.edges@[e])
                            &&& self.labels@[self.edges@[e]] == self.labels@[(e / RADIX) as u128].push(
                                (e % RADIX) as usize,
                            )
                        } by {
                            if e != key {
                                assert(e_old.contains_key(e));
                            }
                        }
                        assert forall|s: Seq<usize>|
                            #[trigger] self.ids@.contains_key(s) && s.len() > 0 implies {
                                &&& self.ids@.contains_key(s.drop_last())
                                &&& s.last() < RADIX
                                &&& self.edges@.contains_key(
                                    edge_key(self.ids@[s.drop_last()], s.last()) as u128,
                                )
                                &&& self.edges@[edge_key(self.ids@[s.drop_last()], s.last()) as u128]
                                    == self.ids@[s]
                            } by {
                            if s != next {
                                assert(s.drop_last() != next);
                            }
                        }
                    }
                    cur = fresh;
                },
            }
            c = c + 1;
        }
        let n_end = self.edges.len();
        proof {
            reveal(Memo::wf);
            reveal(Memo::extends);
            assert(full.subrange(0, p@.len() as int) =~= full);
            assert(self.labels@.contains_key(cur));
        }
        cur
    }
}

/// The outcome count that the slot `sl` of the sequence `digits` stands for.
pub open spec fn count_at(b: &Board, ds: Seq<usize>, sl: int) -> nat {
    let d = Pos {
        row: ((sl / 2) / b.spec_width()) as u8,
        col: ((sl / 2) % b.spec_width()) as u8,
    };
    if sl % 2 == 1 {
        pred_turn(b, d, undigits(ds))
    } else {
        prey_turn(b, d, undigits(ds))
    }
}

/// Every sheep of `q` is a sheep of `p0`, on the same row or lower.
pub open spec fn descends(p0: Seq<Option<u8>>, q: Seq<Option<u8>>) -> bool {
    &&& q.len() == p0.len()
    &&& forall|c: int|
        0 <= c < q.len() ==> (#[trigger] q[c] is None || (p0[c] is Some && q[c]->0 >= p0[c]->0))
}

/// Every count that `after` holds and `before` did not belongs to a state whose
/// sheep descend from `p0`: the search only adds states with fewer or lower sheep.
pub open spec fn new_keys_descend(before: Memo, after: Memo, p0: Seq<Option<u8>>) -> bool {
    forall|k: u128|
        #[trigger] after.counts@.contains_key(k) && !before.counts@.contains_key(k) ==> after.labels@.contains_key(
            (k / SLOTS) as u128,
        ) && descends(p0, undigits(after.labels@[(k / SLOTS) as u128]))
}

pub proof fn lemma_descends_trans(a: Seq<Option<u8>>, b: Seq<Option<u8>>, c: Seq<Option<u8>>)
    requires
        descends(a, b),
        descends(b, c),
    ensures
        descends(a, c),
{
    assert forall|i: int| 0 <= i < c.len() implies (#[trigger] c[i] is None || (a[i] is Some && c[i]->0 >= a[i]->0)) by {
        if c[i] is Some {
            assert(b[i] is Some);
        }
    }
}

/// The states added by a nested call on a successor also descend from the caller's state.
proof fn lemma_new_keys_chain(o: Memo, before: Memo, after: Memo, p0: Seq<Option<u8>>, p1: Seq<Option<u8>>)
    requires
        new_keys_descend(o, before, p0),
        new_keys_descend(before, after, p1),
        descends(p0, p1),
        before.extends(&after),
        o.extends(&before),
    ensures
        new_keys_descend(o, after, p0),
{
    reveal(Memo::extends);
    assert forall|k: u128| #[trigger] after.counts@.contains_key(k) && !o.counts@.contains_key(k) implies after.labels@.contains_key(
        (k / SLOTS) as u128,
    ) && descends(p0, undigits(after.labels@[(k / SLOTS) as u128])) by {
        if before.counts@.contains_key(k) {
            assert(before.labels@.contains_key((k / SLOTS) as u128));
        } else {
            lemma_descends_trans(p0, p1, undigits(after.labels@[(k / SLOTS) as u128]));
        }
    }
}

/// Storing a state's true count in a memo that did not hold it keeps the memo
/// consistent and gives the lookup of that state.
proof fn lemma_store_count(
    o: Memo,
    m1: Memo,
    m2: Memo,
    m3: Memo,
    b: &Board,
    key: u128,
    v: u64,
    dragon_turn: bool,
    d: Pos,
    p: Seq<Option<u8>>,
)
    requires
        b.wf(),
        state_ok(b, d, p),
        m2.wf(),
        m2.ok(b),
        o.extends(&m2),
        m1.extends(&m2),
        m1.ids@.contains_key(digits(p)),
        key == m1.ids@[digits(p)] * SLOTS + slot_of(b, dragon_turn, d),
        !o.counts@.contains_key(key),
        v == (if dragon_turn {
            pred_turn(b, d, p)
        } else {
            prey_turn(b, d, p)
        }),
        new_keys_descend(o, m2, p),
        m3.counts@ == m2.counts@.insert(key, v),
        m3.edges@ == m2.edges@,
        m3.labels@ == m2.labels@,
        m3.ids@ == m2.ids@,
    ensures
        m3.wf(),
        m3.ok(b),
        o.extends(&m3),
        m3.lookup(b, dragon_turn, d, p) == Some(v),
        new_keys_descend(o, m3, p),
{
    reveal(Memo::wf);
    reveal(Memo::ok);
    reveal(Memo::extends);
    let id = m1.ids@[digits(p)];
    lemma_slot_decodes(b, id, dragon_turn, d, p);
    assert(m2.ids@[digits(p)] == id);
    assert(m2.labels@.contains_key(id));
    assert(m2.labels@[id] == digits(p));
    assert(key / SLOTS == id);
    assert forall|q: u128| #[trigger] m3.counts@.contains_key(q) implies m3.labels@.contains_key((q / SLOTS) as u128)
        && m3.counts@[q] == count_at(b, m3.labels@[(q / SLOTS) as u128], (q % SLOTS) as int) by {
        if q != key {
            assert(m2.counts@.contains_key(q));
        }
    }
    assert forall|q: u128| #[trigger] o.counts@.contains_key(q) implies m3.counts@.contains_key(q)
        && m3.counts@[q] == o.counts@[q] by {
        assert(m2.counts@.contains_key(q));
    }
    assert forall|q: u128| #[trigger] m3.counts@.contains_key(q) && !o.counts@.contains_key(q) implies m3.labels@.contains_key(
        (q / SLOTS) as u128,
    ) && descends(p, undigits(m3.labels@[(q / SLOTS) as u128])) by {
        if q != key {
            assert(m2.counts@.contains_key(q));
        }
    }
}

/// Numbering more sequences keeps a memo consistent.
proof fn lemma_ok_after_numbering(o: Memo, m: Memo, b: &Board)
    requires
        o.ok(b),
        o.extends(&m),
        m.counts@ == o.counts@,
    ensures
        m.ok(b),
{
    reveal(Memo::ok);
    reveal(Memo::extends);
    assert forall|k: u128| #[trigger] m.counts@.contains_key(k) implies m.labels@.contains_key((k / SLOTS) as u128)
        && m.counts@[k] == count_at(b, m.labels@[(k / SLOTS) as u128], (k % SLOTS) as int) by {
        assert(o.counts@.contains_key(k));
        assert(o.labels@.contains_key((k / SLOTS) as u128));
    }
}

/// A memo that changed in nothing but its numbering added no count.
proof fn lemma_no_new_counts(o: Memo, m: Memo, p: Seq<Option<u8>>)
    requires
        m.counts@ == o.counts@,
    ensures
        new_keys_descend(o, m, p),
{
}

/// Keeping every entry is transitive.
pub proof fn lemma_extends_trans(a: Memo, b: Memo, c: Memo)
    requires
        a.extends(&b),
        b.extends(&c),
    ensures
        a.extends(&c),
{
    reveal(Memo::extends);
}

/// Every memo keeps its own entries.
pub proof fn lemma_extends_refl(a: Memo)
    ensures
        a.extends(&a),
{
    reveal(Memo::extends);
}

/// In a memo that numbers a sequence, every prefix of it is numbered too.
proof fn lemma_prefixes_numbered(m: Memo, s: Seq<usize>, j: int)
    requires
        m.wf(),
        m.ids@.contains_key(s),
        0 <= j <= s.len(),
    ensures
        forall|i: int| 0 <= i <= j ==> #[trigger] m.ids@.contains_key(s.subrange(0, i)),
    decreases s.len(),
{
    reveal(Memo::wf);
    if s.len() > 0 {
        lemma_prefixes_numbered(m, s.drop_last(), if j < s.len() {
            j
        } else {
            s.len() - 1
        });
        assert forall|i: int| 0 <= i <= j implies #[trigger] m.ids@.contains_key(s.subrange(0, i)) by {
            if i == s.len() {
                assert(s.subrange(0, i) =~= s);
            } else {
                assert(s.drop_last().subrange(0, i) =~= s.subrange(0, i));
            }
        }
    } else {
        assert(s.subrange(0, 0) =~= s);
    }
}

/// The key of a state decodes to that state.
pub proof fn lemma_slot_decodes(b: &Board, id: u128, dragon_turn: bool, d: Pos, p: Seq<Option<u8>>)
    requires
        b.wf(),
        state_ok(b, d, p),
    ensures
        0 <= slot_of(b, dragon_turn, d) < SLOTS,
        ((id * SLOTS + slot_of(b, dragon_turn, d)) / (SLOTS as int)) == id,
        ((id * SLOTS + slot_of(b, dragon_turn, d)) % (SLOTS as int)) == slot_of(b, dragon_turn, d),
        count_at(b, digits(p), slot_of(b, dragon_turn, d)) == (if dragon_turn {
            pred_turn(b, d, p)
        } else {
            prey_turn(b, d, p)
        }),
        undigits(digits(p)) == p,
{
    let w = b.spec_width();
    let h = b.spec_height();
    let idx = d.row * w + d.col;
    lemma_cell_index(w, h, d.row as int, d.col as int);
    let t: int = if dragon_turn {
        1
    } else {
        0
    };
    let sl = idx * 2 + t;
    vstd::arithmetic::div_mod::lemma_fundamental_div_mod_converse(id * SLOTS + sl, SLOTS as int, id as int, sl);
    vstd::arithmetic::div_mod::lemma_fundamental_div_mod_converse(sl, 2, idx, t);
    vstd::arithmetic::div_mod::lemma_fundamental_div_mod_converse(idx, w, d.row as int, d.col as int);
    assert(undigits(digits(p)) =~= p) by {
        assert forall|c: int| 0 <= c < p.len() implies undigits(digits(p))[c] == p[c] by {
            if p[c] is Some {
                assert(p[c]->0 < h);
            }
        }
    }
}

// ---------------------------------------------------------------------------
// The search.
// ---------------------------------------------------------------------------

/// The search state: the board, the dragon's cell, the sheep row of each column
/// (`None` once it escaped or was eaten) and each column's safe row.
pub struct Game<'a> {
    pub board: &'a Board,
    pub dragon: Pos,
    pub sheep: Vec<Option<u8>>,
    pub safe: Vec<usize>,
}

impl<'a> Game<'a> {
    pub open spec fn wf(&self) -> bool {
        &&& self.board.wf()
        &&& state_ok(self.board, self.dragon, self.sheep@)
        &&& self.safe@.len() == self.board.spec_width()
        &&& forall|c: int| 0 <= c < self.safe@.len() ==> #[trigger] self.safe@[c] == safe_row(self.board, c)
    }

    pub fn new(board: &'a Board) -> (g: Game<'a>)
        requires
            board.wf(),
        ensures
            g.wf(),
            g.board == board,
            g.dragon == board.spec_dragon(),
            g.sheep@ == initial_prey(board),
    {
        let w = board.width();
        let h = board.height();
        let mut sheep: Vec<Option<u8>> = Vec::new();
        let mut safe: Vec<usize> = Vec::new();
        let mut c: usize = 0;
        while c < w
            invariant
                board.wf(),
                w == board.spec_width(),
                h == board.spec_height(),
                c <= w,
                sheep@.len() == c,
                safe@.len() == c,
                forall|j: int| 0 <= j < c ==> #[trigger] sheep@[j] == first_sheep_scan(board, j, 0),
                forall|j: int| 0 <= j < c ==> #[trigger] safe@[j] == safe_row(board, j),
                forall|j: int|
                    0 <= j < c && (#[trigger] sheep@[j]) is Some ==> sheep@[j]->0 < h,
            decreases w - c,
        {
            let mut r: usize = 0;
            let mut found: Option<u8> = None;
            proof {
                lemma_first_sheep_bound(board, c as int, 0);
            }
            while r < h && found.is_none()
                invariant
                    board.wf(),
                    w == board.spec_width(),
                    h == board.spec_height(),
                    c < w,
                    r <= h,
                    found is None ==> first_sheep_scan(board, c as int, 0) == first_sheep_scan(
                        board,
                        c as int,
                        r as int,
                    ),
                    found is Some ==> found == first_sheep_scan(board, c as int, 0),
                decreases h - r + if found is None {
                    1int
                } else {
                    0int
                },
            {
                if board.has_sheep_at(Pos::new(r, c)) {
                    found = Some(r as u8);
                } else {
                    r = r + 1;
                }
            }
            let mut t: usize = h;
            let mut threshold: usize = h;
            let mut done = false;
            while t > 0 && !done
                invariant
                    board.wf(),
                    w == board.spec_width(),
                    h == board.spec_height(),
                    c < w,
                    t <= h,
                    !done ==> threshold == h && safe_row(board, c as int) == safe_scan(
                        board,
                        c as int,
                        t as int,
                    ),
                    done ==> threshold == safe_row(board, c as int),
                decreases t + if done {
                    0int
                } else {
                    1int
                },
            {
                if !board.is_blocked(Pos::new(t - 1, c)) {
                    threshold = t;
                    done = true;
                } else {
                    t = t - 1;
                }
            }
            sheep.push(found);
            safe.push(threshold);
            c = c + 1;
        }
        proof {
            assert(sheep@ =~= initial_prey(board));
        }
        Game { board, dragon: board.dragon(), sheep, safe }
    }

    /// Whether the sheep of the dragon's target column stands on `pos`.
    pub fn has_sheep_at(&self, pos: Pos) -> (r: bool)
        requires
            self.wf(),
            self.board.in_bounds(pos),
        ensures
            r == (self.sheep@[pos.col as int] == Some(pos.row)),
    {
        match self.sheep[pos.col as usize] {
            Some(row) => row == pos.row,
            None => false,
        }
    }

    /// Whether a sheep that reaches `pos` can no longer be caught.
    pub fn is_safe(&self, pos: Pos) -> (r: bool)
        requires
            self.wf(),
            pos.col < self.board.spec_width(),
        ensures
            r == (pos.row >= safe_row(self.board, pos.col as int)),
    {
        self.safe[pos.col as usize] <= pos.row as usize
    }

    /// Whether every sheep has left the game.
    pub fn all_gone(&self) -> (r: bool)
        ensures
            r == all_gone(self.sheep@),
    {
        let mut c: usize = 0;
        while c < self.sheep.len()
            invariant
                c <= self.sheep@.len(),
                forall|j: int| 0 <= j < c ==> #[trigger] self.sheep@[j] is None,
            decreases self.sheep@.len() - c,
        {
            if self.sheep[c].is_some() {
                return false;
            }
            c = c + 1;
        }
        true
    }

    /// The memo key of the current state, numbering its sheep rows if needed.
    pub fn memo_key(&self, memo: &mut Memo, dragon_turn: bool) -> (k: u128)
        requires
            self.wf(),
            old(memo).wf(),
        ensures
            final(memo).wf(),
            old(memo).extends(&*final(memo)),
            final(memo).counts@ == old(memo).counts@,
            final(memo).ids@.contains_key(digits(self.sheep@)),
            k == final(memo).ids@[digits(self.sheep@)] * SLOTS + slot_of(self.board, dragon_turn, self.dragon),
            old(memo).ids@.contains_key(digits(self.sheep@)) ==> old(memo).same(&*final(memo)),
    {
        let id = memo.intern(&self.sheep);
        let w = self.board.width();
        proof {
            lemma_slot_decodes(self.board, id, dragon_turn, self.dragon, self.sheep@);
        }
        let idx: u128 = self.dragon.row as u128 * w as u128 + self.dragon.col as u128;
        let sl: u128 = if dragon_turn {
            idx * 2 + 1
        } else {
            idx * 2
        };
        id * 131072 + sl
    }

    /// Counts the outcomes from the current state with the sheep to move.
    /// The state is the same on return. The memo keeps every entry it had, gains only
    /// true counts, holds this state's count on success, and is untouched when it
    /// already held it.
    #[verifier::rlimit(60)]
    pub fn sheep_moves(&mut self, memo: &mut Memo) -> (r: Option<u64>)
        requires
            old(self).wf(),
            old(memo).wf(),
            old(memo).ok(old(self).board),
        ensures
            final(self).board == old(self).board,
            final(self).dragon == old(self).dragon,
            final(self).sheep@ == old(self).sheep@,
            final(self).safe@ == old(self).safe@,
            final(memo).wf(),
            final(memo).ok(old(self).board),
            old(memo).extends(&*final(memo)),
            r == (if prey_turn(old(self).board, old(self).dragon, old(self).sheep@) <= u64::MAX {
                Some(prey_turn(old(self).board, old(self).dragon, old(self).sheep@) as u64)
            } else {
                None::<u64>
            }),
            r matches Some(v) ==> final(memo).lookup(old(self).board, false, old(self).dragon, old(self).sheep@) == Some(v),
            old(memo).lookup(old(self).board, false, old(self).dragon, old(self).sheep@) is Some
                ==> old(memo).same(&*final(memo)),
            new_keys_descend(*old(memo), *final(memo), old(self).sheep@),
        decreases prey_measure(old(self).board, old(self).dragon, old(self).sheep@),
    {
        broadcast use vstd::std_specs::hash::group_hash_axioms;

        let ghost b = self.board;
        let ghost d = self.dragon;
        let ghost s0 = self.sheep@;
        let key = self.memo_key(memo, false);
        let ghost m1 = *memo;
        let ghost id = m1.ids@[digits(s0)];
        proof {
            lemma_slot_decodes(b, id, false, d, s0);
        }
        proof {
            lemma_extends_refl(m1);
            lemma_no_new_counts(*old(memo), m1, s0);
            lemma_ok_after_numbering(*old(memo), m1, b);
        }
        if let Some(cached) = memo.counts.get(&key) {
            proof {
                assert(memo.lookup(b, false, d, s0) == Some(*cached));
                lemma_memo_lookup_sound(b, *memo, false, d, s0);
            }
            return Some(*cached);
        }
        if self.all_gone() {
            let ghost m2 = *memo;
            memo.counts.insert(key, 1);
            proof {
                lemma_terminal_counts_one(b, d, s0);
                lemma_store_count(*old(memo), m1, m2, *memo, b, key, 1, false, d, s0);
            }
            return Some(1);
        }
        proof {
            if old(memo).ids@.contains_key(digits(s0)) {
                assert(old(memo).same(&m1));
            }
        }
        let w = self.board.width();
        let h = self.board.height();
        let mut count: u64 = 0;
        let mut any_move = false;
        let mut c: usize = 0;
        while c < w
            invariant
                self.wf(),
                self.board == b,
                self.dragon == d,
                self.sheep@ == s0,
                self.safe@ == old(self).safe@,
                b == old(self).board,
                d == old(self).dragon,
                s0 == old(self).sheep@,
                w == b.spec_width(),
                h == b.spec_height(),
                memo.wf(),
                memo.ok(b),
                old(memo).extends(&*memo),
                m1.extends(&*memo),
                m1.ids@.contains_key(digits(s0)),
                id == m1.ids@[digits(s0)],
                key == id * SLOTS + slot_of(b, false, d),
                ((key as int) / (SLOTS as int)) == id,
                ((key as int) % (SLOTS as int)) == slot_of(b, false, d),
                count_at(b, digits(s0), slot_of(b, false, d)) == prey_turn(b, d, s0),
                !old(memo).counts@.contains_key(key),
                old(memo).lookup(b, false, d, s0) is None,
                new_keys_descend(*old(memo), *memo, s0),
                !all_gone(s0),
                c <= w,
                count + prey_branches(b, d, s0, c as int) == prey_branches(b, d, s0, 0),
                any_move == exists|j: int| 0 <= j < c && #[trigger] can_step(b, d, s0, j),
            decreases w - c,
        {
            if let Some(r) = self.sheep[c] {
                let r1: usize = r as usize + 1;
                let pos1 = self.dragon;
                if !(r1 == pos1.row as usize && c == pos1.col as usize && !self.board.is_blocked(
                    pos1,
                )) {
                    any_move = true;
                    if !(r1 == h || r1 >= self.safe[c]) {
                        self.sheep.set(c, Some(r1 as u8));
                        proof {
                            assert(self.sheep@ == stepped(s0, c as int));
                            lemma_prey_step_decreases(b, d, s0, c as int);
                            assert forall|j: int|
                                0 <= j < self.sheep@.len() && (#[trigger] self.sheep@[j]) is Some implies self.sheep@[j]->0 < h by {
                                if j != c {
                                    assert(self.sheep@[j] == s0[j]);
                                }
                            }
                        }
                        let ghost before = *memo;
                        let sub = self.dragon_moves(memo);
                        proof {
                            lemma_extends_trans(*old(memo), before, *memo);
                            lemma_extends_trans(m1, before, *memo);
                            lemma_new_keys_chain(*old(memo), before, *memo, s0, stepped(s0, c as int));
                        }
                        self.sheep.set(c, Some(r));
                        proof {
                            assert(self.sheep@ =~= s0);
                        }
                        match sub {
                            None => {
                                return None;
                            },
                            Some(v) => match count.checked_add(v) {
                                None => {
                                    return None;
                                },
                                Some(t) => {
                                    count = t;
                                },
                            },
                        }
                    }
                }
            }
            proof {
                assert(any_move == exists|j: int| 0 <= j < c + 1 && #[trigger] can_step(b, d, s0, j));
            }
            c = c + 1;
        }
        if !any_move {
            // Double move: no sheep can move, so the dragon moves again.
            proof {
                assert(stuck(b, d, s0));
            }
            let ghost before = *memo;
            let sub = self.dragon_moves(memo);
            proof {
                lemma_extends_trans(*old(memo), before, *memo);
                lemma_extends_trans(m1, before, *memo);
                lemma_new_keys_chain(*old(memo), before, *memo, s0, s0);
            }
            match sub {
                None => {
                    return None;
                },
                Some(v) => match count.checked_add(v) {
                    None => {
                        return None;
                    },
                    Some(t) => {
                        count = t;
                    },
                },
            }
        }
        proof {
            if any_move {
                let j = choose|j: int| 0 <= j < w && #[trigger] can_step(b, d, s0, j);
                assert(!stuck(b, d, s0));
            }
        }
        let ghost m2 = *memo;
        memo.counts.insert(key, count);
        proof {
            lemma_store_count(*old(memo), m1, m2, *memo, b, key, count, false, d, s0);
        }
        Some(count)
    }

    /// Counts the outcomes from the current state with the dragon to move.
    /// The state is the same on return. The memo keeps every entry it had, gains only
    /// true counts, holds this state's count on success, and is untouched when it
    /// already held it.
    #[verifier::rlimit(60)]
    pub fn dragon_moves(&mut self, memo: &mut Memo) -> (r: Option<u64>)
        requires
            old(self).wf(),
            old(memo).wf(),
            old(memo).ok(old(self).board),
        ensures
            final(self).board == old(self).board,
            final(self).dragon == old(self).dragon,
            final(self).sheep@ == old(self).sheep@,
            final(self).safe@ == old(self).safe@,
            final(memo).wf(),
            final(memo).ok(old(self).board),
            old(memo).extends(&*final(memo)),
            r == (if pred_turn(old(self).board, old(self).dragon, old(self).sheep@) <= u64::MAX {
                Some(pred_turn(old(self).board, old(self).dragon, old(self).sheep@) as u64)
            } else {
                None::<u64>
            }),
            r matches Some(v) ==> final(memo).lookup(old(self).board, true, old(self).dragon, old(self).sheep@) == Some(v),
            old(memo).lookup(old(self).board, true, old(self).dragon, old(self).sheep@) is Some
                ==> old(memo).same(&*final(memo)),
            new_keys_descend(*old(memo), *final(memo), old(self).sheep@),
        decreases pred_measure(old(self).board, old(self).dragon, old(self).sheep@),
    {
        broadcast use vstd::std_specs::hash::group_hash_axioms;

        let ghost b = self.board;
        let ghost s0 = self.sheep@;
        let pos = self.dragon;
        let key = self.memo_key(memo, true);
        let ghost m1 = *memo;
        let ghost id = m1.ids@[digits(s0)];
        proof {
            lemma_slot_decodes(b, id, true, pos, s0);
        }
        proof {
            lemma_extends_refl(m1);
            lemma_no_new_counts(*old(memo), m1, s0);
            lemma_ok_after_numbering(*old(memo), m1, b);
        }
        if let Some(cached) = memo.counts.get(&key) {
            proof {
                assert(memo.lookup(b, true, pos, s0) == Some(*cached));
                lemma_memo_lookup_sound(b, *memo, true, pos, s0);
            }
            return Some(*cached);
        }
        if self.all_gone() {
            let ghost m2 = *memo;
            memo.counts.insert(key, 1);
            proof {
                lemma_terminal_counts_one(b, pos, s0);
                lemma_store_count(*old(memo), m1, m2, *memo, b, key, 1, true, pos, s0);
            }
            return Some(1);
        }
        proof {
            if old(memo).ids@.contains_key(digits(s0)) {
                assert(old(memo).same(&m1));
            }
        }
        let w = self.board.width();
        let h = self.board.height();
        let mut count: u64 = 0;
        let mut k: usize = 0;
        while k < 8
            invariant
                self.wf(),
                self.board == b,
                self.dragon == pos,
                self.sheep@ == s0,
                self.safe@ == old(self).safe@,
                b == old(self).board,
                pos == old(self).dragon,
                s0 == old(self).sheep@,
                w == b.spec_width(),
                h == b.spec_height(),
                memo.wf(),
                memo.ok(b),
                old(memo).extends(&*memo),
                m1.extends(&*memo),
                m1.ids@.contains_key(digits(s0)),
                id == m1.ids@[digits(s0)],
                key == id * SLOTS + slot_of(b, true, pos),
                ((key as int) / (SLOTS as int)) == id,
                ((key as int) % (SLOTS as int)) == slot_of(b, true, pos),
                count_at(b, digits(s0), slot_of(b, true, pos)) == pred_turn(b, pos, s0),
                !old(memo).counts@.contains_key(key),
                old(memo).lookup(b, true, pos, s0) is None,
                new_keys_descend(*old(memo), *memo, s0),
                !all_gone(s0),
                k <= 8,
                count + pred_branches(b, pos, s0, k as int) == pred_branches(b, pos, s0, 0),
            decreases 8 - k,
        {
            if let Some(pos1) = knight_move(pos, w, h, k) {
                let capture = !self.board.is_blocked(pos1) && self.has_sheep_at(pos1);
                if capture {
                    self.sheep.set(pos1.col as usize, None);
                }
                self.dragon = pos1;
                proof {
                    assert(self.sheep@ == captured(b, pos1, s0));
                    lemma_pred_step_decreases(b, pos, s0, k as int, pos1);
                    assert forall|j: int|
                        0 <= j < self.sheep@.len() && (#[trigger] self.sheep@[j]) is Some implies self.sheep@[j]->0 < h by {
                        if j != pos1.col {
                            assert(self.sheep@[j] == s0[j]);
                        }
                    }
                }
                let ghost before = *memo;
                let sub = self.sheep_moves(memo);
                proof {
                    lemma_extends_trans(*old(memo), before, *memo);
                    lemma_extends_trans(m1, before, *memo);
                    lemma_new_keys_chain(*old(memo), before, *memo, s0, captured(b, pos1, s0));
                }
                if capture {
                    self.sheep.set(pos1.col as usize, Some(pos1.row));
                }
                self.dragon = pos;
                proof {
                    assert(self.sheep@ =~= s0);
                }
                match sub {
                    None => {
                        return None;
                    },
                    Some(v) => match count.checked_add(v) {
                        None => {
                            return None;
                        },
                        Some(t) => {
                            count = t;
                        },
                    },
                }
            }
            k = k + 1;
        }
        let ghost m2 = *memo;
        memo.counts.insert(key, count);
        proof {
            lemma_store_count(*old(memo), m1, m2, *memo, b, key, count, true, pos, s0);
        }
        Some(count)
    }

    /// Counts the ways the game can end from the current state, sheep to move;
    /// `None` when the count exceeds `u64`.
    pub fn count_winning_games(&mut self) -> (r: Option<u64>)
        requires
            old(self).wf(),
        ensures
            final(self).board == old(self).board,
            final(self).dragon == old(self).dragon,
            final(self).sheep@ == old(self).sheep@,
            r == (if prey_turn(old(self).board, old(self).dragon, old(self).sheep@) <= u64::MAX {
                Some(prey_turn(old(self).board, old(self).dragon, old(self).sheep@) as u64)
            } else {
                None::<u64>
            }),
    {
        broadcast use vstd::std_specs::hash::group_hash_axioms;

        let mut memo = Memo::new();
        proof {
            reveal(Memo::ok);
            assert(memo.ok(self.board));
        }
        self.sheep_moves(&mut memo)
    }
}

proof fn lemma_first_sheep_bound(b: &Board, c: int, r: int)
    requires
        b.wf(),
        0 <= r,
    ensures
        first_sheep_scan(b, c, r) matches Some(x) ==> r <= x < b.spec_height(),
    decreases b.spec_height() - r,
{
    if r < b.spec_height() && !b.sheep_at(Pos { row: r as u8, col: c as u8 }) {
        lemma_first_sheep_bound(b, c, r + 1);
    }
}


// ---------------------------------------------------------------------------
// Laws of the game count.
// ---------------------------------------------------------------------------

/// Once every sheep is gone, either turn counts exactly one finished game.
pub proof fn lemma_terminal_counts_one(b: &Board, d: Pos, p: Seq<Option<u8>>)
    requires
        b.wf(),
        all_gone(p),
    ensures
        prey_turn(b, d, p) == 1,
        pred_turn(b, d, p) == 1,
{
}

/// A count found in a consistent memo for a state is that state's count, so a
/// lookup never answers for another state or for the other turn.
pub proof fn lemma_memo_lookup_sound(b: &Board, m: Memo, dragon_turn: bool, d: Pos, p: Seq<Option<u8>>)
    requires
        b.wf(),
        m.wf(),
        m.ok(b),
        state_ok(b, d, p),
        m.lookup(b, dragon_turn, d, p) is Some,
    ensures
        m.lookup(b, dragon_turn, d, p)->0 == (if dragon_turn {
            pred_turn(b, d, p)
        } else {
            prey_turn(b, d, p)
        }),
{
    reveal(Memo::wf);
    reveal(Memo::ok);
    let id = m.ids@[digits(p)];
    lemma_slot_decodes(b, id, dragon_turn, d, p);
    assert(m.labels@.contains_key(id));
    let k = (id * SLOTS + slot_of(b, dragon_turn, d)) as u128;
    assert(k == id * SLOTS + slot_of(b, dragon_turn, d));
    assert(m.counts@.contains_key(k));
}

/// Distinct states that fit the board have distinct memo keys.
pub proof fn lemma_memo_keys_distinct(
    b: &Board,
    m: Memo,
    t1: bool,
    d1: Pos,
    p1: Seq<Option<u8>>,
    t2: bool,
    d2: Pos,
    p2: Seq<Option<u8>>,
)
    requires
        b.wf(),
        m.wf(),
        state_ok(b, d1, p1),
        state_ok(b, d2, p2),
        m.ids@.contains_key(digits(p1)),
        m.ids@.contains_key(digits(p2)),
        m.ids@[digits(p1)] * SLOTS + slot_of(b, t1, d1) == m.ids@[digits(p2)] * SLOTS + slot_of(b, t2, d2),
    ensures
        t1 == t2,
        d1 == d2,
        p1 == p2,
{
    reveal(Memo::wf);
    let i1 = m.ids@[digits(p1)];
    let i2 = m.ids@[digits(p2)];
    lemma_slot_decodes(b, i1, t1, d1, p1);
    lemma_slot_decodes(b, i2, t2, d2, p2);
    assert(i1 == i2);
    assert(digits(p1) == digits(p2));
    assert(undigits(digits(p1)) =~= p1) by {
        assert forall|c: int| 0 <= c < p1.len() implies undigits(digits(p1))[c] == p1[c] by {
            if p1[c] is Some {
                assert(p1[c]->0 < b.spec_height());
            }
        }
    }
    assert(undigits(digits(p2)) =~= p2) by {
        assert forall|c: int| 0 <= c < p2.len() implies undigits(digits(p2))[c] == p2[c] by {
            if p2[c] is Some {
                assert(p2[c]->0 < b.spec_height());
            }
        }
    }
    let w = b.spec_width();
    let h = b.spec_height();
    lemma_cell_index(w, h, d1.row as int, d1.col as int);
    lemma_cell_index(w, h, d2.row as int, d2.col as int);
    let x1 = d1.row * w + d1.col;
    let x2 = d2.row * w + d2.col;
    let u1: int = if t1 { 1 } else { 0 };
    let u2: int = if t2 { 1 } else { 0 };
    vstd::arithmetic::div_mod::lemma_fundamental_div_mod_converse(x1 * 2 + u1, 2, x1, u1);
    vstd::arithmetic::div_mod::lemma_fundamental_div_mod_converse(x1 * 2 + u1, 2, x2, u2);
    vstd::arithmetic::div_mod::lemma_fundamental_div_mod_converse(x1, w, d1.row as int, d1.col as int);
    vstd::arithmetic::div_mod::lemma_fundamental_div_mod_converse(x1, w, d2.row as int, d2.col as int);
}

/// A sheep move keeps the number of sheep in play, or removes the sheep when it escapes.
pub proof fn lemma_sheep_move_keeps_live_count(b: &Board, d: Pos, p: Seq<Option<u8>>, c: int)
    requires
        b.wf(),
        0 <= c < p.len(),
        can_step(b, d, p, c),
    ensures
        steps_in_play(b, d, p, c) ==> live_count(stepped(p, c)) == live_count(p),
        live_count(p.update(c, None)) < live_count(p),
{
    lemma_live_count_update(p, c, Some((p[c]->0 + 1) as u8));
    lemma_live_count_update(p, c, None);
}

/// A dragon move leaves the sheep as they are or takes one away; none is ever added.
pub proof fn lemma_dragon_move_never_adds_sheep(
    b: &Board,
    d: Pos,
    p: Seq<Option<u8>>,
    k: int,
    d1: Pos,
)
    requires
        b.wf(),
        0 <= k < 8,
        knight_dest(b.spec_width(), b.spec_height(), d, k) == Some(d1),
    ensures
        live_count(captured(b, d1, p)) <= live_count(p),
{
    if captured(b, d1, p) != p {
        lemma_live_count_update(p, d1.col as int, None);
    }
}

// ---------------------------------------------------------------------------
// Reach of the dragon over sheep that stand still or walk down.
// ---------------------------------------------------------------------------

/// Number of set flags.
pub open spec fn count_true(s: Seq<bool>) -> nat
    decreases s.len(),
{
    if s.len() == 0 {
        0
    } else {
        count_true(s.drop_last()) + if s.last() {
            1nat
        } else {
            0nat
        }
    }
}

/// Number of filled entries.
pub open spec fn count_some(s: Seq<Option<usize>>) -> nat
    decreases s.len(),
{
    if s.len() == 0 {
        0
    } else {
        count_some(s.drop_last()) + if s.last() is Some {
            1nat
        } else {
            0nat
        }
    }
}

proof fn lemma_count_true(s: Seq<bool>, i: int)
    requires
        0 <= i < s.len(),
        !s[i],
    ensures
        count_true(s.update(i, true)) == count_true(s) + 1,
        count_true(s) <= s.len(),
    decreases s.len(),
{
    let t = s.update(i, true);
    lemma_count_true_le(s);
    if i == s.len() - 1 {
        assert(t.drop_last() =~= s.drop_last());
    } else {
        lemma_count_true(s.drop_last(), i);
        assert(t.drop_last() =~= s.drop_last().update(i, true));
    }
}

proof fn lemma_count_true_le(s: Seq<bool>)
    ensures
        count_true(s) <= s.len(),
    decreases s.len(),
{
    if s.len() > 0 {
        lemma_count_true_le(s.drop_last());
    }
}

proof fn lemma_count_some(s: Seq<Option<usize>>, i: int, v: usize)
    requires
        0 <= i < s.len(),
        s[i] is None,
    ensures
        count_some(s.update(i, Some(v))) == count_some(s) + 1,
        count_some(s) <= s.len(),
    decreases s.len(),
{
    let t = s.update(i, Some(v));
    lemma_count_some_le(s);
    if i == s.len() - 1 {
        assert(t.drop_last() =~= s.drop_last());
    } else {
        lemma_count_some(s.drop_last(), i, v);
        assert(t.drop_last() =~= s.drop_last().update(i, Some(v)));
    }
}

proof fn lemma_count_some_le(s: Seq<Option<usize>>)
    ensures
        count_some(s) <= s.len(),
    decreases s.len(),
{
    if s.len() > 0 {
        lemma_count_some_le(s.drop_last());
    }
}

pub open spec fn all_in_bounds(b: &Board, v: Seq<Pos>) -> bool {
    forall|i: int| 0 <= i < v.len() ==> b.in_bounds(#[trigger] v[i])
}

/// The dragon's sweep over sheep that stand still: which cells it reached, which
/// sheep it ate.
pub struct StaticSheep<'a> {
    pub board: &'a Board,
    pub visited: Vec<bool>,
    pub captured_sheep: Vec<bool>,
}

impl<'a> StaticSheep<'a> {
    pub open spec fn wf(&self) -> bool {
        &&& self.board.wf()
        &&& self.visited@.len() == self.board.spec_width() * self.board.spec_height()
        &&& self.captured_sheep@.len() == self.board.spec_width() * self.board.spec_height()
    }

    pub fn new(board: &'a Board) -> (s: StaticSheep<'a>)
        requires
            board.wf(),
        ensures
            s.wf(),
            s.board == board,
            count_true(s.captured_sheep@) == 0,
    {
        proof {
            lemma_cell_index(board.spec_width(), board.spec_height(), 0, 0);
        }
        let n = board.width() * board.height();
        let visited = vec_of_bool(false, n);
        let captured_sheep = vec_of_bool(false, n);
        proof {
            lemma_count_true_all_false(captured_sheep@);
        }
        StaticSheep { board, visited, captured_sheep }
    }

    /// A sheep stands on `pos` and was not eaten yet.
    pub fn has_static_sheep_at(&self, pos: Pos) -> (r: bool)
        requires
            self.wf(),
            self.board.in_bounds(pos),
        ensures
            r == (self.board.sheep_at(pos) && !self.captured_sheep@[pos.row * self.board.spec_width() + pos.col]),
    {
        proof {
            lemma_cell_index(self.board.spec_width(), self.board.spec_height(), pos.row as int, pos.col as int);
        }
        self.board.has_sheep_at(pos) && !self.captured_sheep[pos.into_index(self.board.width())]
    }

    pub fn set_captued(&mut self, pos: Pos)
        requires
            old(self).wf(),
            old(self).board.in_bounds(pos),
        ensures
            final(self).wf(),
            final(self).board == old(self).board,
            final(self).visited@ == old(self).visited@,
            final(self).captured_sheep@ == old(self).captured_sheep@.update(
                pos.row * old(self).board.spec_width() + pos.col,
                true,
            ),
    {
        proof {
            lemma_cell_index(self.board.spec_width(), self.board.spec_height(), pos.row as int, pos.col as int);
        }
        let i = pos.into_index(self.board.width());
        self.captured_sheep.set(i, true);
    }

    pub fn has_visited(&self, pos: Pos) -> (r: bool)
        requires
            self.wf(),
            self.board.in_bounds(pos),
        ensures
            r == self.visited@[pos.row * self.board.spec_width() + pos.col],
    {
        proof {
            lemma_cell_index(self.board.spec_width(), self.board.spec_height(), pos.row as int, pos.col as int);
        }
        self.visited[pos.into_index(self.board.width())]
    }

    /// Sheep within `max_dist` knight moves of the dragon, eaten as they are reached.
    /// Returns how many were eaten on this call.
    pub fn reachable_static_sheep(&mut self, max_dist: usize) -> (r: usize)
        requires
            old(self).wf(),
            max_dist < usize::MAX,
        ensures
            final(self).wf(),
            final(self).board == old(self).board,
            count_true(final(self).captured_sheep@) == count_true(old(self).captured_sheep@) + r,
    {
        let ghost c0 = count_true(self.captured_sheep@);
        let w = self.board.width();
        let h = self.board.height();
        let mut pending: Vec<Pos> = Vec::new();
        pending.push(self.board.dragon());
        let mut next: Vec<Pos> = Vec::new();
        proof {
            lemma_cell_index(w as int, h as int, 0, 0);
        }
        let n = w * h;
        self.visited = vec_of_bool(false, n);
        let mut reachable: usize = 0;
        let mut step: usize = 0;
        proof {
            lemma_count_true_le(self.captured_sheep@);
        }
        while step <= max_dist
            invariant
                self.wf(),
                self.board == old(self).board,
                w == self.board.spec_width(),
                h == self.board.spec_height(),
                n == w * h,
                all_in_bounds(self.board, pending@),
                next@.len() == 0,
                count_true(self.captured_sheep@) == c0 + reachable,
                count_true(self.captured_sheep@) <= n,
                max_dist < usize::MAX,
            decreases max_dist + 1 - step,
        {
            let mut k: usize = 0;
            while k < pending.len()
                invariant
                    self.wf(),
                    self.board == old(self).board,
                    w == self.board.spec_width(),
                    h == self.board.spec_height(),
                    n == w * h,
                    all_in_bounds(self.board, pending@),
                    all_in_bounds(self.board, next@),
                    count_true(self.captured_sheep@) == c0 + reachable,
                    count_true(self.captured_sheep@) <= n,
                decreases pending@.len() - k,
            {
                let pos = pending[k];
                k = k + 1;
                proof {
                    lemma_cell_index(w as int, h as int, pos.row as int, pos.col as int);
                }
                let idx = pos.into_index(w);
                if !self.visited[idx] {
                    self.visited.set(idx, true);
                    if self.has_static_sheep_at(pos) {
                        proof {
                            lemma_count_true(self.captured_sheep@, idx as int);
                        }
                        self.set_captued(pos);
                        proof {
                            lemma_count_true_le(self.captured_sheep@);
                        }
                        reachable = reachable + 1;
                    }
                    let mut moves = self.board.dragon_moves(pos);
                    let mut more = true;
                    while more
                        invariant
                            self.wf(),
                            self.board == old(self).board,
                            w == self.board.spec_width(),
                            h == self.board.spec_height(),
                            moves.wf(),
                            moves.width == w,
                            moves.height == h,
                            all_in_bounds(self.board, next@),
                            count_true(self.captured_sheep@) == c0 + reachable,
                            count_true(self.captured_sheep@) <= n,
                            n == w * h,
                        decreases 9 - moves.index - if more {
                            0int
                        } else {
                            1int
                        },
                    {
                        match moves.next() {
                            Some(pos1) => {
                                proof {
                                    lemma_next_move_in_bounds(moves, pos1);
                                }
                                if !self.has_visited(pos1) {
                                    next.push(pos1);
                                }
                            },
                            None => {
                                more = false;
                            },
                        }
                    }
                }
            }
            pending = next;
            next = Vec::new();
            step = step + 1;
        }
        reachable
    }
}

/// The dragon's sweep while the sheep walk down one row per turn: which cells it can
/// stand on, and at which turn each sheep was eaten.
pub struct DynamicSheep<'a> {
    pub board: &'a Board,
    pub visited: Vec<bool>,
    pub captured_sheep: Vec<Option<usize>>,
    pub time: usize,
}

impl<'a> DynamicSheep<'a> {
    pub open spec fn wf(&self) -> bool {
        &&& self.board.wf()
        &&& self.visited@.len() == self.board.spec_width() * self.board.spec_height()
        &&& self.captured_sheep@.len() == self.board.spec_width() * self.board.spec_height()
    }

    pub fn new(board: &'a Board) -> (s: DynamicSheep<'a>)
        requires
            board.wf(),
        ensures
            s.wf(),
            s.board == board,
            s.time == 0,
    {
        proof {
            lemma_cell_index(board.spec_width(), board.spec_height(), 0, 0);
        }
        let n = board.width() * board.height();
        let visited = vec_of_bool(false, n);
        let captured_sheep = vec_of_none(n);
        DynamicSheep { board, visited, captured_sheep, time: 0 }
    }

    /// A sheep that started `time` rows above `pos` stands there now, not yet eaten.
    pub fn has_moving_sheep_at(&self, pos: Pos, time: usize) -> (r: bool)
        requires
            self.wf(),
            self.board.in_bounds(pos),
            time < 256,
        ensures
            r == (time <= pos.row && self.board.sheep_at(Pos { row: (pos.row - time) as u8, col: pos.col })
                && self.captured_sheep@[(pos.row - time) * self.board.spec_width() + pos.col] is None),
    {
        match pos.sub_row(time) {
            Some(pos1) => {
                proof {
                    lemma_cell_index(self.board.spec_width(), self.board.spec_height(), pos1.row as int, pos1.col as int);
                }
                self.board.has_sheep_at(pos1) && self.captured_sheep[pos1.into_index(self.board.width())].is_none()
            },
            None => false,
        }
    }

    /// The sheep that started `sheep_time` rows above `pos` was eaten at turn `dragon_time`.
    pub fn was_captured_at(&self, pos: Pos, sheep_time: usize, dragon_time: usize) -> (r: bool)
        requires
            self.wf(),
            self.board.in_bounds(pos),
            sheep_time < 256,
        ensures
            r == (sheep_time <= pos.row && self.board.sheep_at(Pos { row: (pos.row - sheep_time) as u8, col: pos.col })
                && self.captured_sheep@[(pos.row - sheep_time) * self.board.spec_width() + pos.col] == Some(dragon_time)),
    {
        match pos.sub_row(sheep_time) {
            Some(pos1) => {
                proof {
                    lemma_cell_index(self.board.spec_width(), self.board.spec_height(), pos1.row as int, pos1.col as int);
                }
                self.board.has_sheep_at(pos1) && match self.captured_sheep[pos1.into_index(self.board.width())] {
                    Some(t) => t == dragon_time,
                    None => false,
                }
            },
            None => false,
        }
    }

    /// The sheep that started `sheep_time` rows above `pos` was eaten at some turn.
    pub fn was_captured_any_time(&self, pos: Pos, sheep_time: usize) -> (r: bool)
        requires
            self.wf(),
            self.board.in_bounds(pos),
            sheep_time < 256,
        ensures
            r == (sheep_time <= pos.row && self.board.sheep_at(Pos { row: (pos.row - sheep_time) as u8, col: pos.col })
                && self.captured_sheep@[(pos.row - sheep_time) * self.board.spec_width() + pos.col] is Some),
    {
        match pos.sub_row(sheep_time) {
            Some(pos1) => {
                proof {
                    lemma_cell_index(self.board.spec_width(), self.board.spec_height(), pos1.row as int, pos1.col as int);
                }
                self.board.has_sheep_at(pos1) && self.captured_sheep[pos1.into_index(self.board.width())].is_some()
            },
            None => false,
        }
    }

    /// Records that the sheep that started `time` rows above `pos` was eaten now.
    pub fn set_captued(&mut self, pos: Pos, time: usize)
        requires
            old(self).wf(),
            old(self).board.in_bounds(pos),
            time < 256,
        ensures
            final(self).wf(),
            final(self).board == old(self).board,
            final(self).time == old(self).time,
            final(self).visited@ == old(self).visited@,
            time <= pos.row ==> final(self).captured_sheep@ == old(self).captured_sheep@.update(
                (pos.row - time) * old(self).board.spec_width() + pos.col,
                Some(old(self).time),
            ),
            time > pos.row ==> final(self).captured_sheep@ == old(self).captured_sheep@,
    {
        if let Some(pos1) = pos.sub_row(time) {
            proof {
                lemma_cell_index(self.board.spec_width(), self.board.spec_height(), pos1.row as int, pos1.col as int);
            }
            let i = pos1.into_index(self.board.width());
            let t = self.time;
            self.captured_sheep.set(i, Some(t));
        }
    }

    pub fn has_visited(&self, pos: Pos) -> (r: bool)
        requires
            self.wf(),
            self.board.in_bounds(pos),
        ensures
            r == self.visited@[pos.row * self.board.spec_width() + pos.col],
    {
        proof {
            lemma_cell_index(self.board.spec_width(), self.board.spec_height(), pos.row as int, pos.col as int);
        }
        self.visited[pos.into_index(self.board.width())]
    }

    /// Sheep the dragon can eat within `max_dist` turns while they walk down, counting
    /// each sheep once. Returns how many were eaten.
    pub fn reachable_moving_sheep(&mut self, max_dist: usize) -> (r: usize)
        requires
            old(self).wf(),
            max_dist < 255,
        ensures
            final(self).wf(),
            final(self).board == old(self).board,
            r <= final(self).board.spec_width() * final(self).board.spec_height(),
    {
        let w = self.board.width();
        let h = self.board.height();
        proof {
            lemma_cell_index(w as int, h as int, 0, 0);
        }
        let n = w * h;
        let mut pending: Vec<Pos> = Vec::new();
        let mut first = self.board.dragon_moves(self.board.dragon());
        let mut more = true;
        while more
            invariant
                self.wf(),
                self.board == old(self).board,
                w == self.board.spec_width(),
                h == self.board.spec_height(),
                first.wf(),
                first.width == w,
                first.height == h,
                all_in_bounds(self.board, pending@),
            decreases 9 - first.index - if more {
                0int
            } else {
                1int
            },
        {
            match first.next() {
                Some(p) => {
                    proof {
                        lemma_next_move_in_bounds(first, p);
                    }
                    pending.push(p);
                },
                None => {
                    more = false;
                },
            }
        }
        let mut next: Vec<Pos> = Vec::new();
        self.visited = vec_of_bool(false, n);
        self.captured_sheep = vec_of_none(n);
        proof {
            lemma_count_some_none(self.captured_sheep@);
        }
        let mut reachable: usize = 0;
        let dragon = self.board.dragon();
        let base: usize = dragon.row as usize + dragon.col as usize;
        let mut time: usize = 0;
        while time < max_dist
            invariant
                self.wf(),
                self.board == old(self).board,
                w == self.board.spec_width(),
                h == self.board.spec_height(),
                n == w * h,
                base <= 510,
                max_dist < 255,
                all_in_bounds(self.board, pending@),
                next@.len() == 0,
                reachable == count_some(self.captured_sheep@),
                reachable <= n,
            decreases max_dist - time,
        {
            self.time = time;
            let mut k: usize = 0;
            while k < pending.len()
                invariant
                    self.wf(),
                    self.board == old(self).board,
                    w == self.board.spec_width(),
                    h == self.board.spec_height(),
                    all_in_bounds(self.board, pending@),
                    all_in_bounds(self.board, next@),
                    reachable == count_some(self.captured_sheep@),
                    reachable <= n,
                    n == w * h,
                    self.time == time,
                decreases pending@.len() - k,
            {
                let pos = pending[k];
                k = k + 1;
                proof {
                    lemma_cell_index(w as int, h as int, pos.row as int, pos.col as int);
                }
                let idx = pos.into_index(w);
                if !self.visited[idx] {
                    self.visited.set(idx, true);
                    let mut moves = self.board.dragon_moves(pos);
                    let mut more = true;
                    while more
                        invariant
                            self.wf(),
                            self.board == old(self).board,
                            w == self.board.spec_width(),
                            h == self.board.spec_height(),
                            moves.wf(),
                            moves.width == w,
                            moves.height == h,
                            all_in_bounds(self.board, next@),
                            reachable == count_some(self.captured_sheep@),
                            self.time == time,
                        decreases 9 - moves.index - if more {
                            0int
                        } else {
                            1int
                        },
                    {
                        match moves.next() {
                            Some(pos1) => {
                                proof {
                                    lemma_next_move_in_bounds(moves, pos1);
                                }
                                if !self.has_visited(pos1) {
                                    next.push(pos1);
                                }
                            },
                            None => {
                                more = false;
                            },
                        }
                    }
                }
            }
            let mut r: usize = 0;
            while r < h
                invariant
                    self.wf(),
                    self.board == old(self).board,
                    w == self.board.spec_width(),
                    h == self.board.spec_height(),
                    n == w * h,
                    base <= 510,
                    time < 255,
                    self.time == time,
                    reachable == count_some(self.captured_sheep@),
                    reachable <= n,
                    r <= h,
                decreases h - r,
            {
                let mut c: usize = 0;
                while c < w
                    invariant
                        self.wf(),
                        self.board == old(self).board,
                        w == self.board.spec_width(),
                        h == self.board.spec_height(),
                        n == w * h,
                        base <= 510,
                        time < 255,
                        self.time == time,
                        reachable == count_some(self.captured_sheep@),
                        reachable <= n,
                        r < h,
                        c <= w,
                    decreases w - c,
                {
                    let parity = r + c + time + base;
                    if parity % 2 == 1 {
                        let mut t: usize = 0;
                        while t <= 1
                            invariant
                                self.wf(),
                                self.board == old(self).board,
                                w == self.board.spec_width(),
                                h == self.board.spec_height(),
                                n == w * h,
                                time < 255,
                                self.time == time,
                                reachable == count_some(self.captured_sheep@),
                                reachable <= n,
                                r < h,
                                c < w,
                                t <= 2,
                            decreases 2 - t,
                        {
                            let pos1 = Pos::new(r, c);
                            let time1 = time + t;
                            if self.has_visited(pos1) && self.has_moving_sheep_at(pos1, time1)
                                && !self.board.is_blocked(pos1) {
                                proof {
                                    let i = (pos1.row - time1) * w + pos1.col;
                                    lemma_cell_index(w as int, h as int, pos1.row - time1, pos1.col as int);
                                    lemma_count_some(self.captured_sheep@, i, time);
                                }
                                self.set_captued(pos1, time1);
                                proof {
                                    lemma_count_some_le(self.captured_sheep@);
                                }
                                reachable = reachable + 1;
                            }
                            t = t + 1;
                        }
                    }
                    c = c + 1;
                }
                r = r + 1;
            }
            pending = next;
            next = Vec::new();
            time = time + 1;
        }
        reachable
    }
}

proof fn lemma_next_move_in_bounds(m: DragonMoves, p: Pos)
    requires
        knight_dest(m.width as int, m.height as int, m.origin, m.index - 1) == Some(p),
    ensures
        p.row < m.height,
        p.col < m.width,
{
}

proof fn lemma_count_true_all_false(s: Seq<bool>)
    requires
        forall|i: int| 0 <= i < s.len() ==> !#[trigger] s[i],
    ensures
        count_true(s) == 0,
    decreases s.len(),
{
    if s.len() > 0 {
        assert(!s[s.len() - 1]);
        lemma_count_true_all_false(s.drop_last());
    }
}

proof fn lemma_count_some_none(s: Seq<Option<usize>>)
    requires
        forall|i: int| 0 <= i < s.len() ==> #[trigger] s[i] is None,
    ensures
        count_some(s) == 0,
    decreases s.len(),
{
    if s.len() > 0 {
        assert(s[s.len() - 1] is None);
        lemma_count_some_none(s.drop_last());
    }
}

/// `n` copies of `x`.
pub fn vec_of_bool(x: bool, n: usize) -> (v: Vec<bool>)
    ensures
        v@.len() == n,
        forall|i: int| 0 <= i < n ==> #[trigger] v@[i] == x,
{
    let mut v: Vec<bool> = Vec::new();
    let mut i: usize = 0;
    while i < n
        invariant
            i <= n,
            v@.len() == i,
            forall|j: int| 0 <= j < i ==> #[trigger] v@[j] == x,
        decreases n - i,
    {
        v.push(x);
        i = i + 1;
    }
    v
}

/// `n` empty entries.
pub fn vec_of_none(n: usize) -> (v: Vec<Option<usize>>)
    ensures
        v@.len() == n,
        forall|i: int| 0 <= i < n ==> #[trigger] v@[i] is None,
{
    let mut v: Vec<Option<usize>> = Vec::new();
    let mut i: usize = 0;
    while i < n
        invariant
            i <= n,
            v@.len() == i,
            forall|j: int| 0 <= j < i ==> #[trigger] v@[j] is None,
        decreases n - i,
    {
        v.push(None);
        i = i + 1;
    }
    v
}

/// The number of finished games from the board's start, sheep to move first.
pub open spec fn winning_games(b: &Board) -> nat {
    prey_turn(b, b.spec_dragon(), initial_prey(b))
}

/// The puzzle of this board: a dragon hunting sheep.
pub struct Day10;

impl Day10 {
    /// Reads the board; see `Board::parse`.
    pub fn parse(input: &str) -> (res: Result<Board, ParseError>)
        ensures
            res is Ok <==> well_formed_grid(input.spec_bytes()),
            res matches Ok(b) ==> {
                let lines = split_lines(input.spec_bytes());
                &&& b.wf()
                &&& b.spec_height() == lines.len()
                &&& b.spec_width() == lines[0].len()
                &&& forall|r: int, c: int|
                    0 <= r < b.spec_height() && 0 <= c < b.spec_width() ==> {
                        &&& b.sheep_cells()[r * b.spec_width() + c] == (#[trigger] lines[r][c] == 83u8)
                        &&& b.blocked_cells()[r * b.spec_width() + c] == (lines[r][c] == 35u8)
                    }
                &&& lines[b.spec_dragon().row as int][b.spec_dragon().col as int] == 68u8
            },
    {
        Board::parse(input)
    }

    /// Sheep that stand still within four knight moves of the dragon.
    pub fn part_1(input: &Board) -> (r: usize)
        requires
            input.wf(),
        ensures
            r <= input.spec_width() * input.spec_height(),
    {
        let mut s = StaticSheep::new(input);
        let r = s.reachable_static_sheep(4);
        proof {
            lemma_count_true_le(s.captured_sheep@);
        }
        r
    }

    /// Sheep the dragon can eat in twenty turns while they walk down.
    pub fn part_2(input: &Board) -> (r: usize)
        requires
            input.wf(),
        ensures
            r <= input.spec_width() * input.spec_height(),
    {
        let mut s = DynamicSheep::new(input);
        s.reachable_moving_sheep(20)
    }

    /// The number of ways the game can end, or `None` where it does not fit in a `u64`.
    pub fn part_3(input: &Board) -> (r: Option<u64>)
        requires
            input.wf(),
        ensures
            r == (if winning_games(input) <= u64::MAX {
                Some(winning_games(input) as u64)
            } else {
                None::<u64>
            }),
    {
        let mut game = Game::new(input);
        game.count_winning_games()
    }
}

} // verus!

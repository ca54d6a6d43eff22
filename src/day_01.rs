use vstd::prelude::*;
use vstd::string::StringSliceAdditionalSpecFns;
use crate::parse::{field_bounds, parse_unsigned, split_fields, split_lines};

verus! {

/// The input was not a list of names, a blank line and a list of moves.
#[derive(Debug, Clone, Copy, PartialEq, Eq)]
pub enum ParseError {
    SyntaxError,
    InvalidNumber,
}

/// A move of the pointer over the list of names.
#[derive(Debug, Clone, Copy, PartialEq, Eq, Structural)]
pub enum Instruction {
    Left(usize),
    Right(usize),
}

impl Instruction {
    /// Reads `R<n>` or `L<n>` from `b[start..end]`.
    pub fn parse(b: &[u8], start: usize, end: usize) -> (r: Result<Instruction, ParseError>)
        requires
            start <= end <= b@.len(),
        ensures
            r matches Ok(Instruction::Right(_)) ==> b@[start as int] == 82u8,
            r matches Ok(Instruction::Left(_)) ==> b@[start as int] == 76u8,
            start == end ==> r is Err,
    {
        if start == end {
            return Err(ParseError::SyntaxError);
        }
        let c = b[start];
        if c != 82u8 && c != 76u8 {
            return Err(ParseError::SyntaxError);
        }
        let n = match parse_unsigned(b, start + 1, end, usize::MAX as u64) {
            Some(v) => v as usize,
            None => {
                return Err(ParseError::InvalidNumber);
            },
        };
        if c == 82u8 {
            Ok(Instruction::Right(n))
        } else {
            Ok(Instruction::Left(n))
        }
    }
}

/// The names and the moves.
#[derive(Debug, Clone, PartialEq, Eq)]
pub struct Input {
    pub names: Vec<String>,
    pub instructions: Vec<Instruction>,
}

/// The pointer after the first `i` moves, clamped to the ends of a list of `len` names.
pub open spec fn clamped_pos(ins: Seq<Instruction>, len: int, i: int) -> int
    decreases i,
{
    if i <= 0 {
        0
    } else {
        let p = clamped_pos(ins, len, i - 1);
        match ins[i - 1] {
            Instruction::Left(n) => if p >= n {
                p - n
            } else {
                0
            },
            Instruction::Right(n) => if p + n <= len - 1 {
                p + n
            } else {
                len - 1
            },
        }
    }
}

/// The pointer after the first `i` moves on a circle of `len` names.
pub open spec fn circular_pos(ins: Seq<Instruction>, len: int, i: int) -> int
    decreases i,
{
    if i <= 0 {
        0
    } else {
        let p = circular_pos(ins, len, i - 1);
        match ins[i - 1] {
            Instruction::Left(n) => (p - n as int) % len,
            Instruction::Right(n) => (p + n as int) % len,
        }
    }
}

/// The position of the name in front after the first `i` moves, each of which swaps
/// the front name with the one the move points at.
pub open spec fn swapped_order(ins: Seq<Instruction>, len: int, i: int) -> Seq<int>
    decreases i,
{
    if i <= 0 {
        Seq::new(len as nat, |k: int| k)
    } else {
        let o = swapped_order(ins, len, i - 1);
        let k = match ins[i - 1] {
            Instruction::Left(n) => (-(n as int)) % len,
            Instruction::Right(n) => (n as int) % len,
        };
        o.update(0, o[k]).update(k, o[0])
    }
}

proof fn lemma_swapped_order_range(ins: Seq<Instruction>, len: int, i: int)
    requires
        len >= 1,
    ensures
        swapped_order(ins, len, i).len() == len,
        forall|k: int| 0 <= k < len ==> 0 <= #[trigger] swapped_order(ins, len, i)[k] < len,
    decreases i,
{
    if i > 0 {
        lemma_swapped_order_range(ins, len, i - 1);
    }
}

fn substring(s: &str, from: usize, to: usize) -> (r: Option<String>)
    requires
        from <= to <= s.spec_bytes().len(),
{
    if !s.is_char_boundary(from) {
        return None;
    }
    let (_, rest) = s.split_at(from);
    if !rest.is_char_boundary(to - from) {
        return None;
    }
    let (mid, _) = rest.split_at(to - from);
    Some(mid.to_owned())
}

pub struct Day01;

impl Day01 {
    /// Reads the comma-separated names, a blank line, then the comma-separated moves.
    pub fn parse(input: &str) -> (r: Result<Input, ParseError>)
        ensures
            r matches Ok(v) ==> {
                let lines = split_lines(input.spec_bytes());
                &&& lines.len() >= 3
                &&& lines[1].len() == 0
                &&& v.names@.len() == split_fields(lines[0], 44u8).len()
                &&& v.instructions@.len() == split_fields(lines[2], 44u8).len()
            },
    {
        let b = input.as_bytes();
        let lines = field_bounds(b, 10u8);
        if lines.len() < 3 {
            return Err(ParseError::SyntaxError);
        }
        proof {
            let f = split_fields(b@, 10u8);
            assert(split_lines(b@).len() >= f.len() - 1);
        }
        if lines.len() == 3 && lines[2].0 == lines[2].1 {
            return Err(ParseError::SyntaxError);
        }
        if lines[1].0 != lines[1].1 {
            return Err(ParseError::SyntaxError);
        }
        let (s0, e0) = lines[0];
        let (s2, e2) = lines[2];
        let ghost l0 = b@.subrange(s0 as int, e0 as int);
        let ghost l2 = b@.subrange(s2 as int, e2 as int);
        let name_slice = vstd::slice::slice_subrange(b, s0, e0);
        let name_bounds = field_bounds(name_slice, 44u8);
        let mut names: Vec<String> = Vec::new();
        let mut j: usize = 0;
        while j < name_bounds.len()
            invariant
                j <= name_bounds@.len(),
                names@.len() == j,
                s0 <= e0 <= b@.len(),
                forall|k: int|
                    0 <= k < name_bounds@.len() ==> (#[trigger] name_bounds@[k]).0 <= name_bounds@[k].1
                        <= name_slice@.len(),
                name_slice@.len() == e0 - s0,
                b@ == input.spec_bytes(),
            decreases name_bounds@.len() - j,
        {
            let (a, z) = name_bounds[j];
            match substring(input, s0 + a, s0 + z) {
                Some(n) => names.push(n),
                None => {
                    return Err(ParseError::SyntaxError);
                },
            }
            j = j + 1;
        }
        let ins_slice = vstd::slice::slice_subrange(b, s2, e2);
        let ins_bounds = field_bounds(ins_slice, 44u8);
        let mut instructions: Vec<Instruction> = Vec::new();
        let mut k: usize = 0;
        while k < ins_bounds.len()
            invariant
                k <= ins_bounds@.len(),
                instructions@.len() == k,
                forall|q: int|
                    0 <= q < ins_bounds@.len() ==> (#[trigger] ins_bounds@[q]).0 <= ins_bounds@[q].1
                        <= ins_slice@.len(),
            decreases ins_bounds@.len() - k,
        {
            let (a, z) = ins_bounds[k];
            let ins = Instruction::parse(ins_slice, a, z)?;
            instructions.push(ins);
            k = k + 1;
        }
        proof {
            assert(name_slice@ == l0);
            assert(ins_slice@ == l2);
            let f = split_fields(b@, 10u8);
            assert(split_lines(b@)[0] == f[0]);
            assert(split_lines(b@)[1] == f[1]);
            assert(split_lines(b@)[2] == f[2]);
        }
        Ok(Input { names, instructions })
    }

    /// The name the pointer rests on when moves stop at the ends of the list.
    pub fn part_1(input: &Input) -> (r: String)
        requires
            input.names@.len() >= 1,
        ensures
            r@ == input.names@[clamped_pos(input.instructions@, input.names@.len() as int, input.instructions@.len() as int)]@,
    {
        let len = input.names.len();
        let mut pos: usize = 0;
        let mut i: usize = 0;
        while i < input.instructions.len()
            invariant
                len == input.names@.len(),
                len >= 1,
                i <= input.instructions@.len(),
                pos == clamped_pos(input.instructions@, len as int, i as int),
                pos < len,
            decreases input.instructions@.len() - i,
        {
            match input.instructions[i] {
                Instruction::Left(n) => {
                    pos = if pos >= n {
                        pos - n
                    } else {
                        0
                    };
                },
                Instruction::Right(n) => {
                    pos = if n <= len - 1 - pos {
                        pos + n
                    } else {
                        len - 1
                    };
                },
            }
            i = i + 1;
        }
        input.names[pos].clone()
    }

    /// The name the pointer rests on when the list wraps around.
    pub fn part_2(input: &Input) -> (r: String)
        requires
            input.names@.len() >= 1,
        ensures
            r@ == input.names@[circular_pos(input.instructions@, input.names@.len() as int, input.instructions@.len() as int)]@,
    {
        let len = input.names.len();
        let mut pos: usize = 0;
        let mut i: usize = 0;
        while i < input.instructions.len()
            invariant
                len == input.names@.len(),
                len >= 1,
                i <= input.instructions@.len(),
                pos == circular_pos(input.instructions@, len as int, i as int),
                pos < len,
            decreases input.instructions@.len() - i,
        {
            let ghost p = pos as int;
            match input.instructions[i] {
                Instruction::Left(n) => {
                    let m = n % len;
                    let ghost q = n as int / len as int;
                    proof {
                        vstd::arithmetic::div_mod::lemma_fundamental_div_mod(n as int, len as int);
                        lemma_mod_shift(p - n, len as int, q);
                        assert(p - n + len * q == p - m);
                        lemma_mod_shift(p - m, len as int, 1);
                    }
                    if pos >= m {
                        pos = pos - m;
                    } else {
                        pos = pos + (len - m);
                    }
                    proof {
                        vstd::arithmetic::div_mod::lemma_small_mod(pos as nat, len as nat);
                    }
                },
                Instruction::Right(n) => {
                    let m = n % len;
                    let ghost q = n as int / len as int;
                    proof {
                        vstd::arithmetic::div_mod::lemma_fundamental_div_mod(n as int, len as int);
                        lemma_mod_shift(p + m, len as int, q);
                        assert(p + m + len * q == p + n);
                        lemma_mod_shift(p + m - len, len as int, 1);
                    }
                    if m >= len - pos {
                        pos = pos - (len - m);
                    } else {
                        pos = pos + m;
                    }
                    proof {
                        vstd::arithmetic::div_mod::lemma_small_mod(pos as nat, len as nat);
                    }
                },
            }
            i = i + 1;
        }
        input.names[pos].clone()
    }

    /// The front name after each move swaps the front with the name it points at.
    pub fn part_3(input: &Input) -> (r: String)
        requires
            input.names@.len() >= 1,
        ensures
            r@ == input.names@[swapped_order(input.instructions@, input.names@.len() as int, input.instructions@.len() as int)[0]]@,
    {
        let len = input.names.len();
        let mut order: Vec<usize> = Vec::new();
        let mut k: usize = 0;
        while k < len
            invariant
                k <= len,
                order@.len() == k,
                forall|q: int| 0 <= q < k ==> order@[q] == q,
            decreases len - k,
        {
            order.push(k);
            k = k + 1;
        }
        proof {
            assert(order@.map_values(|x: usize| x as int) =~= swapped_order(input.instructions@, len as int, 0));
        }
        let mut i: usize = 0;
        while i < input.instructions.len()
            invariant
                len == input.names@.len(),
                len >= 1,
                i <= input.instructions@.len(),
                order@.len() == len,
                order@.map_values(|x: usize| x as int) == swapped_order(input.instructions@, len as int, i as int),
            decreases input.instructions@.len() - i,
        {
            let t = match input.instructions[i] {
                Instruction::Left(n) => {
                    let m = n % len;
                    let t = (len - m) % len;
                    let ghost q = n as int / len as int;
                    proof {
                        vstd::arithmetic::div_mod::lemma_fundamental_div_mod(n as int, len as int);
                        lemma_mod_shift(-(n as int), len as int, 1);
                        lemma_mod_shift(len - n, len as int, q);
                        assert(len - n + len * q == len - m);
                    }
                    t
                },
                Instruction::Right(n) => n % len,
            };
            let a = order[0];
            let c = order[t];
            order.set(0, c);
            order.set(t, a);
            proof {
                let o = swapped_order(input.instructions@, len as int, i as int);
                assert(order@.map_values(|x: usize| x as int) =~= o.update(0, o[t as int]).update(t as int, o[0]));
            }
            i = i + 1;
        }
        proof {
            lemma_swapped_order_range(input.instructions@, len as int, i as int);
            assert(order@[0] as int == order@.map_values(|x: usize| x as int)[0]);
        }
        input.names[order[0]].clone()
    }
}

/// Adding a multiple of `len` leaves the remainder unchanged.
proof fn lemma_mod_shift(a: int, len: int, t: int)
    requires
        len >= 1,
    ensures
        (a + len * t) % len == a % len,
{
    vstd::arithmetic::div_mod::lemma_mod_multiples_vanish(t, a, len);
    assert(len * t + a == a + len * t);
}

} // verus!

use vstd::prelude::*;
use crate::parse::{field_bounds, parse_unsigned};

verus! {

/// A line was not `id:stat,stat,...` with numbers in range.
#[derive(Debug, Clone, Copy, PartialEq, Eq)]
pub enum ParseError {
    SyntaxError,
    InvalidNumber,
}

/// A sword: its number and the stats that build its fishbone.
#[derive(Debug, Clone, PartialEq, Eq)]
pub struct Sword {
    pub id: u16,
    pub stats: Vec<u8>,
}

/// A fishbone: a spine of numbers, each with at most one smaller number on its left
/// and one larger on its right.
#[derive(Debug, Clone, PartialEq, Eq)]
pub struct Fishbone {
    pub segments: Vec<(Option<u8>, u8, Option<u8>)>,
}

impl Fishbone {
    /// Places each stat, in order, at the first segment with a free side that fits it,
    /// or on a new segment of the spine.
    pub fn from(sword: &Sword) -> (f: Fishbone)
        ensures
            f.segments@.len() <= sword.stats@.len(),
            sword.stats@.len() > 0 ==> f.segments@.len() > 0,
            f.segments@.len() > 0 ==> f.segments@[0].1 == sword.stats@[0],
    {
        let mut segments: Vec<(Option<u8>, u8, Option<u8>)> = Vec::new();
        let mut i: usize = 0;
        while i < sword.stats.len()
            invariant
                i <= sword.stats@.len(),
                segments@.len() <= i,
                i > 0 ==> segments@.len() > 0,
                segments@.len() > 0 ==> segments@[0].1 == sword.stats@[0],
            decreases sword.stats@.len() - i,
        {
            let x = sword.stats[i];
            let mut placed = false;
            let mut k: usize = 0;
            while k < segments.len() && !placed
                invariant
                    k <= segments@.len(),
                    segments@.len() <= i,
                    i > 0 ==> segments@.len() > 0,
                    segments@.len() > 0 ==> segments@[0].1 == sword.stats@[0],
                    placed ==> segments@.len() > 0,
                    i < sword.stats@.len(),
                decreases segments@.len() - k + if placed {
                    0int
                } else {
                    1int
                },
            {
                let (left, mid, right) = segments[k];
                if x < mid && left.is_none() {
                    segments.set(k, (Some(x), mid, right));
                    placed = true;
                } else if x > mid && right.is_none() {
                    segments.set(k, (left, mid, Some(x)));
                    placed = true;
                } else {
                    k = k + 1;
                }
            }
            if !placed {
                segments.push((None, x, None));
            }
            i = i + 1;
        }
        Fishbone { segments }
    }

    pub fn len(&self) -> (n: usize)
        ensures
            n == self.segments@.len(),
    {
        self.segments.len()
    }

    /// The spine read as `((m0 * 10) + m1) * 10 + ...`, at most `u64::MAX`.
    pub fn spine(&self) -> (v: u64)
        ensures
            self.segments@.len() == 0 ==> v == 0,
    {
        let mut val: u64 = 0;
        let mut i: usize = 0;
        while i < self.segments.len()
            invariant
                i <= self.segments@.len(),
                i == 0 ==> val == 0,
            decreases self.segments@.len() - i,
        {
            let mid = self.segments[i].1 as u64;
            val = match val.checked_mul(10) {
                Some(t) => match t.checked_add(mid) {
                    Some(u) => u,
                    None => u64::MAX,
                },
                None => u64::MAX,
            };
            i = i + 1;
        }
        val
    }

    /// The number a segment reads as, left to right.
    pub fn segment(&self, index: usize) -> (v: Option<u32>)
        ensures
            v is Some <==> index < self.segments@.len(),
            v matches Some(x) ==> {
                let (l, m, r) = self.segments@[index as int];
                let base = (match l {
                    Some(a) => a as int,
                    None => 0,
                }) * 10 + m;
                x == (match r {
                    Some(b) => base * 10 + b,
                    None => base,
                })
            },
    {
        if index >= self.segments.len() {
            return None;
        }
        let (left, mid, right) = self.segments[index];
        let mut value: u32 = match left {
            Some(a) => a as u32,
            None => 0,
        };
        value = value * 10 + mid as u32;
        if let Some(r) = right {
            value = value * 10 + r as u32;
        }
        Some(value)
    }
}

/// Orders two swords: by spine, then segment by segment, then by number.
/// Returns -1, 0 or 1.
pub fn compare(a: &Fishbone, a_id: u16, b: &Fishbone, b_id: u16) -> (r: i8)
    ensures
        -1 <= r <= 1,
{
    let sa = a.spine();
    let sb = b.spine();
    if sa != sb {
        return if sa < sb {
            -1
        } else {
            1
        };
    }
    let mut ix: usize = 0;
    while ix < a.len()
        invariant
            ix <= a.segments@.len(),
        decreases a.segments@.len() - ix,
    {
        let x = a.segment(ix);
        let y = b.segment(ix);
        match (x, y) {
            (Some(p), Some(q)) => {
                if p != q {
                    return if p < q {
                        -1
                    } else {
                        1
                    };
                }
            },
            (Some(_), None) => {
                return 1;
            },
            (None, Some(_)) => {
                return -1;
            },
            (None, None) => {},
        }
        ix = ix + 1;
    }
    if a_id < b_id {
        -1
    } else if a_id > b_id {
        1
    } else {
        0
    }
}

/// Reads `id:stat,stat,...` from `b[start..end]`.
pub fn parse_sword(b: &[u8], start: usize, end: usize) -> (r: Result<Sword, ParseError>)
    requires
        start <= end <= b@.len(),
{
    let mut colon: usize = start;
    while colon < end && b[colon] != 58u8
        invariant
            start <= colon <= end <= b@.len(),
        decreases end - colon,
    {
        colon = colon + 1;
    }
    if colon == end {
        return Err(ParseError::SyntaxError);
    }
    let id = match parse_unsigned(b, start, colon, 65535) {
        Some(v) => v as u16,
        None => {
            return Err(ParseError::InvalidNumber);
        },
    };
    let list = vstd::slice::slice_subrange(b, colon + 1, end);
    let parts = field_bounds(list, 44u8);
    let mut stats: Vec<u8> = Vec::new();
    let mut k: usize = 0;
    while k < parts.len()
        invariant
            forall|q: int| 0 <= q < parts@.len() ==> (#[trigger] parts@[q]).0 <= parts@[q].1 <= list@.len(),
        decreases parts@.len() - k,
    {
        match parse_unsigned(list, parts[k].0, parts[k].1, 255) {
            Some(v) => stats.push(v as u8),
            None => {
                return Err(ParseError::InvalidNumber);
            },
        }
        k = k + 1;
    }
    Ok(Sword { id, stats })
}

/// The sword puzzle: swords ranked by the fishbones their stats build.
pub struct Day05;

impl Day05 {
    /// Reads one sword per line.
    pub fn parse(input: &str) -> (r: Result<Vec<Sword>, ParseError>)
    {
        let b = input.as_bytes();
        let lines = field_bounds(b, 10u8);
        let mut count = lines.len();
        proof {
            crate::parse::lemma_split_fields_nonempty(b@, 10u8);
        }
        if lines[count - 1].0 == lines[count - 1].1 {
            count = count - 1;
        }
        let mut v: Vec<Sword> = Vec::new();
        let mut j: usize = 0;
        while j < count
            invariant
                count <= lines@.len(),
                forall|q: int| 0 <= q < lines@.len() ==> (#[trigger] lines@[q]).0 <= lines@[q].1 <= b@.len(),
            decreases count - j,
        {
            let s = parse_sword(b, lines[j].0, lines[j].1)?;
            v.push(s);
            j = j + 1;
        }
        Ok(v)
    }

    /// The spine of the first sword.
    pub fn part_1(input: &Vec<Sword>) -> (r: u64)
        requires
            input@.len() >= 1,
    {
        Fishbone::from(&input[0]).spine()
    }

    /// The spread between the strongest and the weakest spine.
    pub fn part_2(input: &Vec<Sword>) -> (r: u64)
        requires
            input@.len() >= 1,
    {
        let mut min: u64 = u64::MAX;
        let mut max: u64 = 0;
        let mut i: usize = 0;
        while i < input.len()
            invariant
                i <= input@.len(),
                i > 0 ==> min <= max,
            decreases input@.len() - i,
        {
            let s = Fishbone::from(&input[i]).spine();
            if s < min {
                min = s;
            }
            if s > max {
                max = s;
            }
            i = i + 1;
        }
        max - min
    }

    /// The checksum of the ranking, strongest first: position times sword number.
    pub fn part_3(input: &Vec<Sword>) -> (r: u64)
    {
        let n = input.len();
        let mut bones: Vec<Fishbone> = Vec::new();
        let mut order: Vec<usize> = Vec::new();
        let mut i: usize = 0;
        while i < n
            invariant
                n == input@.len(),
                i <= n,
                bones@.len() == i,
                order@.len() == i,
                forall|q: int| 0 <= q < i ==> #[trigger] order@[q] < i,
            decreases n - i,
        {
            bones.push(Fishbone::from(&input[i]));
            order.push(i);
            i = i + 1;
        }
        // Insertion sort of `order`, strongest first.
        let mut a: usize = 1;
        while a < n
            invariant
                n == input@.len(),
                bones@.len() == n,
                order@.len() == n,
                forall|q: int| 0 <= q < n ==> #[trigger] order@[q] < n,
            decreases n - a,
        {
            let mut b: usize = a;
            while b > 0
                invariant
                    n == input@.len(),
                    bones@.len() == n,
                    order@.len() == n,
                    forall|q: int| 0 <= q < n ==> #[trigger] order@[q] < n,
                    b < n,
                decreases b,
            {
                let p = order[b - 1];
                let q = order[b];
                if compare(&bones[p], input[p].id, &bones[q], input[q].id) >= 0 {
                    break;
                }
                order.set(b - 1, q);
                order.set(b, p);
                b = b - 1;
            }
            a = a + 1;
        }
        let mut sum: u64 = 0;
        let mut k: usize = 0;
        while k < n
            invariant
                n == input@.len(),
                order@.len() == n,
                forall|q: int| 0 <= q < n ==> #[trigger] order@[q] < n,
            decreases n - k,
        {
            let id = input[order[k]].id as u64;
            let pos = k as u64 + 1;
            let term = match pos.checked_mul(id) {
                Some(t) => t,
                None => u64::MAX,
            };
            sum = sum.saturating_add(term);
            k = k + 1;
        }
        sum
    }
}

} // verus!

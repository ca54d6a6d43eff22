use vstd::prelude::*;
use crate::parse::{field_bounds, parse_unsigned};

verus! {

/// A line was not `id:` followed by at most 128 letters of `CGAT`.
#[derive(Debug, Clone, Copy, PartialEq, Eq)]
pub enum ParseError {
    SyntaxError,
    InvalidNumber,
}

/// A letter of a DNA sequence, as a one-bit flag.
#[derive(Debug, Clone, Copy, PartialEq, Eq, Structural)]
pub enum Nucleobase {
    C,
    G,
    A,
    T,
}

impl Nucleobase {
    pub fn try_from(value: u8) -> (r: Result<Nucleobase, ParseError>)
        ensures
            r is Err <==> !(value == 67u8 || value == 71u8 || value == 65u8 || value == 84u8),
    {
        if value == 67u8 {
            Ok(Nucleobase::C)
        } else if value == 71u8 {
            Ok(Nucleobase::G)
        } else if value == 65u8 {
            Ok(Nucleobase::A)
        } else if value == 84u8 {
            Ok(Nucleobase::T)
        } else {
            Err(ParseError::SyntaxError)
        }
    }

    /// The flag: 1, 2, 4 or 8.
    pub fn bits(self) -> (r: u128)
        ensures
            r == 1 || r == 2 || r == 4 || r == 8,
    {
        match self {
            Nucleobase::C => 1,
            Nucleobase::G => 2,
            Nucleobase::A => 4,
            Nucleobase::T => 8,
        }
    }
}

/// A scale's DNA: four bits per letter, 32 letters per word.
#[derive(Debug, Clone, Copy, PartialEq, Eq)]
pub struct ScaleDNA {
    pub id: usize,
    pub mask: [u128; 4],
}

fn count_bits(x: u128) -> (n: u32)
    ensures
        n <= 128,
{
    let mut n: u32 = 0;
    let mut i: u32 = 0;
    while i < 128
        invariant
            n <= i <= 128,
        decreases 128 - i,
    {
        if (x >> i) & 1 == 1 {
            n = n + 1;
        }
        i = i + 1;
    }
    n
}

impl ScaleDNA {
    /// The letters of this scale that `other` does not share.
    pub fn except(&self, other: &ScaleDNA) -> (r: ScaleDNA)
        ensures
            r.id == other.id,
    {
        ScaleDNA {
            id: other.id,
            mask: [
                self.mask[0] & !other.mask[0],
                self.mask[1] & !other.mask[1],
                self.mask[2] & !other.mask[2],
                self.mask[3] & !other.mask[3],
            ],
        }
    }

    /// The letters this scale shares with `other`.
    pub fn intersect(&self, other: &ScaleDNA) -> (r: ScaleDNA)
        ensures
            r.id == other.id,
    {
        ScaleDNA {
            id: other.id,
            mask: [
                self.mask[0] & other.mask[0],
                self.mask[1] & other.mask[1],
                self.mask[2] & other.mask[2],
                self.mask[3] & other.mask[3],
            ],
        }
    }

    pub fn count_ones(&self) -> (n: u32)
        ensures
            n <= 512,
    {
        count_bits(self.mask[0]) + count_bits(self.mask[1]) + count_bits(self.mask[2]) + count_bits(
            self.mask[3],
        )
    }

    pub fn is_zero(&self) -> (r: bool)
        ensures
            r == (self.mask[0] == 0 && self.mask[1] == 0 && self.mask[2] == 0 && self.mask[3] == 0),
    {
        self.mask[0] == 0 && self.mask[1] == 0 && self.mask[2] == 0 && self.mask[3] == 0
    }

    /// Where every letter comes from one of the two parents, the product of the
    /// letters shared with each.
    pub fn degree_of_similarity(&self, parent1: &ScaleDNA, parent2: &ScaleDNA) -> (r: Option<u32>)
    {
        if self.except(parent1).except(parent2).is_zero() {
            let score1 = self.intersect(parent1).count_ones();
            let score2 = self.intersect(parent2).count_ones();
            proof {
                assert(score1 * score2 <= 512 * 512) by (nonlinear_arith)
                    requires
                        score1 <= 512,
                        score2 <= 512,
                ;
            }
            Some(score1 * score2)
        } else {
            None
        }
    }

    /// Reads `id:LETTERS` from `b[start..end]`.
    pub fn parse(b: &[u8], start: usize, end: usize) -> (r: Result<ScaleDNA, ParseError>)
        requires
            start <= end <= b@.len(),
    {
        let mut colon: usize = start;
        while colon < end && b[colon] != 58u8
            invariant
                start <= colon <= end <= b@.len(),
            decreases end - colon,
        {
            colon = colon + 1;
        }
        if colon == end {
            return Err(ParseError::SyntaxError);
        }
        let id = match parse_unsigned(b, start, colon, usize::MAX as u64) {
            Some(v) => v as usize,
            None => {
                return Err(ParseError::InvalidNumber);
            },
        };
        if end - colon - 1 > 128 {
            return Err(ParseError::SyntaxError);
        }
        let mut mask: [u128; 4] = [0, 0, 0, 0];
        let mut ix: usize = 0;
        while colon + 1 + ix < end
            invariant
                colon < end <= b@.len(),
                end - colon - 1 <= 128,
                ix <= end - colon - 1,
            decreases end - colon - 1 - ix,
        {
            let nucl = Nucleobase::try_from(b[colon + 1 + ix])?;
            let word = ix / 32;
            let shift = ((ix % 32) * 4) as u128;
            mask[word] = mask[word] | (nucl.bits() << shift);
            ix = ix + 1;
        }
        Ok(ScaleDNA { id, mask })
    }
}

/// A node of the family forest: its parent, and the size and id sum of its tree.
#[derive(Debug, Clone, Copy)]
pub struct UFNode {
    pub parent: usize,
    pub size: usize,
    pub sum: usize,
}

/// The families of scales, merged as parents are found.
pub struct UnionFind {
    pub nodes: Vec<UFNode>,
}

impl UnionFind {
    pub open spec fn wf(&self) -> bool {
        forall|k: int| 0 <= k < self.nodes@.len() ==> #[trigger] self.nodes@[k].parent < self.nodes@.len()
    }

    /// One node per scale, ordered by id; scale `id` starts as its own family.
    pub fn new(input: &Vec<ScaleDNA>) -> (u: UnionFind)
        requires
            forall|k: int| 0 <= k < input@.len() ==> 1 <= #[trigger] input@[k].id <= input@.len(),
        ensures
            u.wf(),
            u.nodes@.len() == input@.len(),
    {
        let n = input.len();
        let mut nodes: Vec<UFNode> = Vec::new();
        let mut i: usize = 0;
        while i < n
            invariant
                n == input@.len(),
                forall|k: int| 0 <= k < input@.len() ==> 1 <= #[trigger] input@[k].id <= input@.len(),
                i <= n,
                nodes@.len() == i,
                forall|k: int| 0 <= k < i ==> #[trigger] nodes@[k].parent < n,
            decreases n - i,
        {
            let id = input[i].id;
            nodes.push(UFNode { parent: id - 1, size: 1, sum: id });
            i = i + 1;
        }
        let mut a: usize = 1;
        while a < n
            invariant
                nodes@.len() == n,
                forall|k: int| 0 <= k < n ==> #[trigger] nodes@[k].parent < n,
            decreases n - a,
        {
            let mut b: usize = a;
            while b > 0 && nodes[b - 1].parent > nodes[b].parent
                invariant
                    nodes@.len() == n,
                    b < n,
                    forall|k: int| 0 <= k < n ==> #[trigger] nodes@[k].parent < n,
                decreases b,
            {
                let x = nodes[b - 1];
                let y = nodes[b];
                nodes.set(b - 1, y);
                nodes.set(b, x);
                b = b - 1;
            }
            a = a + 1;
        }
        UnionFind { nodes }
    }

    /// The root of the family of `index`, halving the path on the way.
    pub fn find(&mut self, index: usize) -> (r: usize)
        requires
            old(self).wf(),
            index < old(self).nodes@.len(),
        ensures
            final(self).wf(),
            final(self).nodes@.len() == old(self).nodes@.len(),
            r < final(self).nodes@.len(),
    {
        let n = self.nodes.len();
        let mut index = index;
        let mut parent = self.nodes[index].parent;
        let mut steps: usize = 0;
        while index != parent && steps < n
            invariant
                self.wf(),
                self.nodes@.len() == n,
                index < n,
                parent < n,
            decreases n - steps,
        {
            let grand_parent = self.nodes[parent].parent;
            let mut node = self.nodes[index];
            node.parent = grand_parent;
            self.nodes.set(index, node);
            index = grand_parent;
            parent = self.nodes[index].parent;
            steps = steps + 1;
        }
        index
    }

    /// Merges the families of the two scales; `false` when they were one already.
    pub fn union(&mut self, index1: usize, index2: usize) -> (merged: bool)
        requires
            old(self).wf(),
            index1 < old(self).nodes@.len(),
            index2 < old(self).nodes@.len(),
        ensures
            final(self).wf(),
            final(self).nodes@.len() == old(self).nodes@.len(),
    {
        let mut a = self.find(index1);
        let mut b = self.find(index2);
        if a == b {
            return false;
        }
        if self.nodes[a].size < self.nodes[b].size {
            let t = a;
            a = b;
            b = t;
        }
        let mut child = self.nodes[b];
        child.parent = a;
        self.nodes.set(b, child);
        let mut root = self.nodes[a];
        root.size = root.size.saturating_add(child.size);
        root.sum = root.sum.saturating_add(child.sum);
        self.nodes.set(a, root);
        true
    }

    pub fn is_root(&self, index: usize) -> (r: bool)
        requires
            index < self.nodes@.len(),
        ensures
            r == (self.nodes@[index as int].parent == index),
    {
        self.nodes[index].parent == index
    }

    pub fn size(&self, index: usize) -> (r: Option<usize>)
        requires
            index < self.nodes@.len(),
        ensures
            r is Some <==> self.nodes@[index as int].parent == index,
    {
        if self.is_root(index) {
            Some(self.nodes[index].size)
        } else {
            None
        }
    }

    pub fn sum(&self, index: usize) -> (r: Option<usize>)
        requires
            index < self.nodes@.len(),
        ensures
            r is Some <==> self.nodes@[index as int].parent == index,
    {
        if self.is_root(index) {
            Some(self.nodes[index].sum)
        } else {
            None
        }
    }
}

/// The indices of the scales, most letters shared with `child` first; equal counts
/// keep their order.
fn ranked(input: &Vec<ScaleDNA>, child: &ScaleDNA) -> (order: Vec<usize>)
    ensures
        order@.len() == input@.len(),
        forall|k: int| 0 <= k < order@.len() ==> #[trigger] order@[k] < input@.len(),
{
    let n = input.len();
    let mut score: Vec<u32> = Vec::new();
    let mut order: Vec<usize> = Vec::new();
    let mut i: usize = 0;
    while i < n
        invariant
            n == input@.len(),
            i <= n,
            score@.len() == i,
            order@.len() == i,
            forall|k: int| 0 <= k < i ==> #[trigger] order@[k] < n,
        decreases n - i,
    {
        score.push(child.intersect(&input[i]).count_ones());
        order.push(i);
        i = i + 1;
    }
    let mut a: usize = 1;
    while a < n
        invariant
            n == input@.len(),
            score@.len() == n,
            order@.len() == n,
            forall|k: int| 0 <= k < n ==> #[trigger] order@[k] < n,
        decreases n - a,
    {
        let mut b: usize = a;
        while b > 0 && score[order[b - 1]] < score[order[b]]
            invariant
                n == input@.len(),
                score@.len() == n,
                order@.len() == n,
                b < n,
                forall|k: int| 0 <= k < n ==> #[trigger] order@[k] < n,
            decreases b,
        {
            let x = order[b - 1];
            let y = order[b];
            order.set(b - 1, y);
            order.set(b, x);
            b = b - 1;
        }
        a = a + 1;
    }
    order
}

/// The DNA puzzle: children whose every letter comes from one of two parents.
pub struct Day09;

impl Day09 {
    /// Reads one scale per line.
    pub fn parse(input: &str) -> (r: Result<Vec<ScaleDNA>, ParseError>)
    {
        let b = input.as_bytes();
        let lines = field_bounds(b, 10u8);
        let mut count = lines.len();
        proof {
            crate::parse::lemma_split_fields_nonempty(b@, 10u8);
        }
        if lines[count - 1].0 == lines[count - 1].1 {
            count = count - 1;
        }
        let mut v: Vec<ScaleDNA> = Vec::new();
        let mut j: usize = 0;
        while j < count
            invariant
                count <= lines@.len(),
                forall|q: int| 0 <= q < lines@.len() ==> (#[trigger] lines@[q]).0 <= lines@[q].1 <= b@.len(),
            decreases count - j,
        {
            let s = ScaleDNA::parse(b, lines[j].0, lines[j].1)?;
            v.push(s);
            j = j + 1;
        }
        Ok(v)
    }

    /// The similarity of the one child among the first three scales.
    pub fn part_1(input: &Vec<ScaleDNA>) -> (r: u32)
        requires
            input@.len() >= 3,
    {
        let mut c: usize = 0;
        while c < input.len()
            invariant
                input@.len() >= 3,
            decreases input@.len() - c,
        {
            let p1 = &input[(c % 3 + 1) % 3];
            let p2 = &input[(c % 3 + 2) % 3];
            if let Some(s) = input[c].degree_of_similarity(p1, p2) {
                return s;
            }
            c = c + 1;
        }
        0
    }

    /// Candidate parent pairs of `child` among the `k` scales most like it: the first
    /// pair, in ranking order, of which it is a child.
    fn parents_of(input: &Vec<ScaleDNA>, child: &ScaleDNA, k: usize) -> (r: Option<(usize, usize, u32)>)
        ensures
            r matches Some(x) ==> x.0 < input@.len() && x.1 < input@.len(),
    {
        let order = ranked(input, child);
        let top = if k < order.len() {
            k
        } else {
            order.len()
        };
        let mut a: usize = 0;
        while a < top
            invariant
                top <= order@.len(),
                order@.len() == input@.len(),
                forall|q: int| 0 <= q < order@.len() ==> #[trigger] order@[q] < input@.len(),
            decreases top - a,
        {
            let p1 = order[a];
            if input[p1].id != child.id {
                let mut b: usize = 0;
                while b < a
                    invariant
                        a < top <= order@.len(),
                        order@.len() == input@.len(),
                        p1 < input@.len(),
                        forall|q: int| 0 <= q < order@.len() ==> #[trigger] order@[q] < input@.len(),
                    decreases a - b,
                {
                    let p2 = order[b];
                    if input[p2].id != child.id {
                        if let Some(s) = child.degree_of_similarity(&input[p1], &input[p2]) {
                            return Some((p1, p2, s));
                        }
                    }
                    b = b + 1;
                }
            }
            a = a + 1;
        }
        None
    }

    /// The sum of the similarities of every child with its parents.
    pub fn part_2(input: &Vec<ScaleDNA>) -> (r: u32)
    {
        let mut scores: u32 = 0;
        let mut c: usize = 0;
        while c < input.len()
            decreases input@.len() - c,
        {
            if let Some((_, _, s)) = Self::parents_of(input, &input[c], 4) {
                scores = scores.saturating_add(s);
            }
            c = c + 1;
        }
        scores
    }

    /// The id sum of the largest family.
    pub fn part_3(input: &Vec<ScaleDNA>) -> (r: usize)
        requires
            forall|k: int| 0 <= k < input@.len() ==> 1 <= #[trigger] input@[k].id <= input@.len(),
    {
        let mut uf = UnionFind::new(input);
        let n = input.len();
        let mut c: usize = 0;
        while c < n
            invariant
                n == input@.len(),
                uf.wf(),
                uf.nodes@.len() == n,
                forall|k: int| 0 <= k < input@.len() ==> 1 <= #[trigger] input@[k].id <= input@.len(),
            decreases n - c,
        {
            if let Some((p1, p2, _)) = Self::parents_of(input, &input[c], 7) {
                uf.union(input[p1].id - 1, input[c].id - 1);
                uf.union(input[p2].id - 1, input[c].id - 1);
            }
            c = c + 1;
        }
        let mut max_size: usize = 0;
        let mut max_size_sum: usize = 0;
        let mut ix: usize = 0;
        while ix < n
            invariant
                n == input@.len(),
                uf.nodes@.len() == n,
            decreases n - ix,
        {
            if let Some(size) = uf.size(ix) {
                if size > max_size {
                    max_size = size;
                    max_size_sum = match uf.sum(ix) {
                        Some(s) => s,
                        None => 0,
                    };
                }
            }
            ix = ix + 1;
        }
        max_size_sum
    }
}

} // verus!

use vstd::prelude::*;

verus! {

/// A placed obstacle, identified by its grid coordinate alone.
#[derive(Debug, PartialEq, Eq, Structural, Clone, Copy, Hash)]
pub struct Block {
    pub x: isize,
    pub y: isize,
}

/// `|a - b| == 1`.
pub open spec fn differ_by_one(a: int, b: int) -> bool {
    a - b == 1 || b - a == 1
}

/// Four-neighbour adjacency: the coordinates differ by one on exactly one axis.
pub open spec fn adjacent(a: Block, b: Block) -> bool {
    differ_by_one(a.x as int, b.x as int) != differ_by_one(a.y as int, b.y as int)
}

impl Block {
    pub fn new(x: isize, y: isize) -> (r: Block)
        ensures
            r.x == x,
            r.y == y,
    {
        Block { x, y }
    }

    /// True iff the two blocks are four-neighbours: one axis differs by exactly
    /// one and the other does not.
    pub fn is_adjacent(self, block: &Block) -> (r: bool)
        ensures
            r == adjacent(self, *block),
    {
        let pairs: [(isize, isize); 2] = [(self.x, block.x), (self.y, block.y)];
        let mut acc = false;
        let mut i: usize = 0;
        while i < 2
            invariant
                0 <= i <= 2,
                pairs@ == seq![(self.x, block.x), (self.y, block.y)],
                acc == (if i == 0 {
                    false
                } else if i == 1 {
                    differ_by_one(self.x as int, block.x as int)
                } else {
                    adjacent(self, *block)
                }),
            decreases 2 - i,
        {
            let (a, b) = pairs[i];
            let one_apart = (a < b && b == a + 1) || (b < a && a == b + 1);
            acc = acc != one_apart;
            i = i + 1;
        }
        acc
    }

    /// The four coordinates at offsets `(1, 0)`, `(-1, 0)`, `(0, 1)`, `(0, -1)`,
    /// without any bounds check against a grid.
    pub fn get_adjacent(self) -> (r: Vec<Block>)
        requires
            isize::MIN < self.x < isize::MAX,
            isize::MIN < self.y < isize::MAX,
        ensures
            r@ == neighbours(self),
            r@.len() == 4,
            forall|i: int| 0 <= i < 4 ==> adjacent(self, #[trigger] r@[i]),
            forall|i: int, j: int| 0 <= i < j < 4 ==> r@[i] != r@[j],
    {
        let offsets: [(isize, isize); 4] = [(1, 0), (-1, 0), (0, 1), (0, -1)];
        let mut r: Vec<Block> = Vec::new();
        let mut i: usize = 0;
        while i < 4
            invariant
                0 <= i <= 4,
                offsets@ == seq![(1isize, 0isize), (-1isize, 0isize), (0isize, 1isize), (0isize, -1isize)],
                isize::MIN < self.x < isize::MAX,
                isize::MIN < self.y < isize::MAX,
                r@.len() == i,
                forall|k: int|
                    0 <= k < i ==> #[trigger] r@[k] == (Block {
                        x: (self.x + offsets@[k].0) as isize,
                        y: (self.y + offsets@[k].1) as isize,
                    }),
            decreases 4 - i,
        {
            let (dx, dy) = offsets[i];
            r.push(Block { x: self.x + dx, y: self.y + dy });
            i = i + 1;
        }
        assert(r@ =~= neighbours(self));
        r
    }
}

/// Adjacency is symmetric and irreflexive: `a` is adjacent to `b` exactly when
/// `b` is adjacent to `a`, and no block is adjacent to itself.
pub proof fn lemma_adjacent_symmetric(a: Block, b: Block)
    ensures
        adjacent(a, b) == adjacent(b, a),
        a == b ==> !adjacent(a, b),
{
}

/// Each of the four neighbours that `get_adjacent` lists is adjacent to the
/// block it was taken from, and the four are distinct.
pub proof fn lemma_neighbours_adjacent(p: Block)
    requires
        isize::MIN < p.x < isize::MAX,
        isize::MIN < p.y < isize::MAX,
    ensures
        ({
            let n = neighbours(p);
            &&& n.len() == 4
            &&& forall|i: int| 0 <= i < 4 ==> adjacent(p, #[trigger] n[i])
            &&& forall|i: int, j: int| 0 <= i < j < 4 ==> n[i] != n[j]
        }),
{
}

/// The four neighbours of `p`, in the order that `get_adjacent` lists them.
pub open spec fn neighbours(p: Block) -> Seq<Block> {
    seq![
        Block { x: (p.x + 1) as isize, y: p.y },
        Block { x: (p.x - 1) as isize, y: p.y },
        Block { x: p.x, y: (p.y + 1) as isize },
        Block { x: p.x, y: (p.y - 1) as isize },
    ]
}

} // verus!

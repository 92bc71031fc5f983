use vstd::prelude::*;
use crate::block::Block;
use crate::block_type::{rotated, BlockType};
use crate::point::{Coordinate, Point};

verus! {

/// Why a level could not be built.
#[derive(Debug)]
pub enum LevelCreationError {
    /// The grid has no rows.
    EmptyLevel,
    /// A row's width (second field) differs from the first row's (first field).
    GridWidth(isize, isize, Vec<BlockType>),
    /// The point is not on exactly one boundary line; the two numbers are
    /// `height + 1` and `width + 1`.
    PointLocation(Point, isize, isize),
    /// A coordinate line is not two integers separated by one space.
    LineParse(String),
    /// Fewer lines than the header and the announced rows need.
    InputTooShort,
    /// The height line is not an integer.
    HeightParse(String),
    /// A row holds a character outside the cell alphabet.
    UnrecognizedBlock(char),
}

/// `c` lies on a boundary line of the grid augmented by one cell on each side.
pub open spec fn perimeter_coord(height: int, width: int, c: int) -> bool {
    c == height + 1 || c == width + 1 || c == 0
}

/// Exactly one of the point's coordinates lies on a boundary line.
pub open spec fn on_perimeter(height: int, width: int, p: Point) -> bool {
    perimeter_coord(height, width, p.x as int) != perimeter_coord(height, width, p.y as int)
}

/// At least one row, and every row as wide as the first.
pub open spec fn rectangular(g: Seq<Seq<BlockType>>) -> bool {
    g.len() >= 1 && forall|i: int| 0 <= i < g.len() ==> (#[trigger] g[i]).len() == g[0].len()
}

/// The index of the first row whose width differs from the first row's.
pub open spec fn first_bad_row(g: Seq<Seq<BlockType>>, i: int) -> bool {
    &&& 0 <= i < g.len()
    &&& g[i].len() != g[0].len()
    &&& forall|j: int| 0 <= j < i ==> (#[trigger] g[j]).len() == g[0].len()
}

/// The conditions that every level meets.
pub open spec fn valid_level(g: Seq<Seq<BlockType>>, start: Point, finish: Point) -> bool {
    &&& rectangular(g)
    &&& g.len() < isize::MAX
    &&& g[0].len() < isize::MAX
    &&& on_perimeter(g.len() as int, g[0].len() as int, start)
    &&& on_perimeter(g.len() as int, g[0].len() as int, finish)
}

/// The rows of a grid as sequences.
pub open spec fn rows_of(g: Seq<Vec<BlockType>>) -> Seq<Seq<BlockType>> {
    g.map_values(|r: Vec<BlockType>| r@)
}

/// The point where the cell at `(row, col)` stands: row 0 of the text is the
/// top row, so it has the largest `y`.
pub open spec fn point_of_cell(height: int, row: int, col: int) -> Point {
    Point { x: col as isize, y: (height - 1 - row) as isize }
}

/// The grid after one rotation click on the cell at `p`; a point outside the
/// grid changes nothing.
pub open spec fn rotate_at(g: Seq<Seq<BlockType>>, p: Point) -> Seq<Seq<BlockType>> {
    if 0 <= p.y < g.len() && 0 <= p.x < g[g.len() - 1 - p.y].len() {
        let row = g.len() - 1 - p.y;
        g.update(row, g[row].update(p.x as int, rotated(g[row][p.x as int])))
    } else {
        g
    }
}

/// The grid after a rotation click on each point of `ps`, in order.
pub open spec fn rotate_all(g: Seq<Seq<BlockType>>, ps: Seq<Point>) -> Seq<Seq<BlockType>>
    decreases ps.len(),
{
    if ps.len() == 0 {
        g
    } else {
        rotate_at(rotate_all(g, ps.drop_last()), ps.last())
    }
}

/// The target and its four neighbours, in the order `get_adjacent` lists them.
pub open spec fn propagation_targets(p: Point) -> Seq<Point> {
    seq![
        p,
        Point { x: (p.x + 1) as isize, y: p.y },
        Point { x: (p.x - 1) as isize, y: p.y },
        Point { x: p.x, y: (p.y + 1) as isize },
        Point { x: p.x, y: (p.y - 1) as isize },
    ]
}

/// What building a level from a grid and two points gives: the first failed
/// check among emptiness, the entry point, the exit point and the row
/// widths, or a level with exactly that grid and those points.
pub open spec fn new_outcome(
    g: Seq<Seq<BlockType>>,
    start: Point,
    finish: Point,
    r: Result<Level, LevelCreationError>,
) -> bool {
    let h = g.len() as int;
    let w = g[0].len() as int;
    &&& h == 0 ==> r == Err::<Level, LevelCreationError>(LevelCreationError::EmptyLevel)
    &&& h > 0 && !on_perimeter(h, w, start) ==> r == Err::<Level, LevelCreationError>(
        LevelCreationError::PointLocation(start, (h + 1) as isize, (w + 1) as isize),
    )
    &&& h > 0 && on_perimeter(h, w, start) && !on_perimeter(h, w, finish) ==> r == Err::<
        Level,
        LevelCreationError,
    >(LevelCreationError::PointLocation(finish, (h + 1) as isize, (w + 1) as isize))
    &&& h > 0 && on_perimeter(h, w, start) && on_perimeter(h, w, finish) && !rectangular(g) ==> (r
        matches Err(LevelCreationError::GridWidth(e, a, row)) && e == w && exists|i: int|
        first_bad_row(g, i) && a == g[i].len() && row@ == g[i])
    &&& valid_level(g, start, finish) ==> (r matches Ok(l) && l.wf() && l.spec_grid() == g
        && l.spec_start() == start && l.spec_finish() == finish)
    &&& r is Ok ==> valid_level(g, start, finish)
}

/// A validated rectangular grid of cells with an entry and an exit point on
/// its perimeter.
#[derive(Debug)]
pub struct Level {
    grid: Vec<Vec<BlockType>>,
    starting_point: Point,
    finishing_point: Point,
}

impl Level {
    /// The rows of the grid.
    pub closed spec fn spec_grid(&self) -> Seq<Seq<BlockType>> {
        rows_of(self.grid@)
    }

    pub closed spec fn spec_start(&self) -> Point {
        self.starting_point
    }

    pub closed spec fn spec_finish(&self) -> Point {
        self.finishing_point
    }

    pub open spec fn spec_height(&self) -> int {
        self.spec_grid().len() as int
    }

    pub open spec fn spec_width(&self) -> int {
        self.spec_grid()[0].len() as int
    }

    /// Well-formedness: what construction establishes and every method keeps.
    pub open spec fn wf(&self) -> bool {
        valid_level(self.spec_grid(), self.spec_start(), self.spec_finish())
    }

    /// Builds a level, checking that the grid is non-empty, that both points
    /// lie on the perimeter, and that the grid is rectangular, in that order.
    pub fn new(grid: Vec<Vec<BlockType>>, starting_point: Point, finishing_point: Point) -> (r:
        Result<Level, LevelCreationError>)
        requires
            grid@.len() < isize::MAX,
            forall|i: int| 0 <= i < grid@.len() ==> (#[trigger] grid@[i])@.len() < isize::MAX,
        ensures
            new_outcome(rows_of(grid@), starting_point, finishing_point, r),
    {
        let height = grid.len() as isize;
        if height == 0 {
            return Err(LevelCreationError::EmptyLevel);
        }
        let width = grid[0].len() as isize;
        let ghost g = rows_of(grid@);
        assert(g[0] == grid@[0]@);
        if let Err(e) = Self::verify_point(height, width, starting_point) {
            return Err(e);
        }
        if let Err(e) = Self::verify_point(height, width, finishing_point) {
            return Err(e);
        }
        let mut i: usize = 0;
        while i < grid.len()
            invariant
                0 <= i <= grid@.len(),
                g == rows_of(grid@),
                g.len() == grid@.len(),
                width == g[0].len(),
                g.len() > 0,
                on_perimeter(g.len() as int, g[0].len() as int, starting_point),
                on_perimeter(g.len() as int, g[0].len() as int, finishing_point),
                forall|j: int| 0 <= j < i ==> (#[trigger] g[j]).len() == g[0].len(),
                forall|j: int| 0 <= j < grid@.len() ==> (#[trigger] grid@[j])@.len() < isize::MAX,
            decreases grid@.len() - i,
        {
            let row = &grid[i];
            assert(g[i as int] == row@);
            if row.len() as isize != width {
                let copy = row.clone();
                assert(copy@ =~= g[i as int]);
                assert(first_bad_row(g, i as int));
                let err = LevelCreationError::GridWidth(width, row.len() as isize, copy);
                assert(err matches LevelCreationError::GridWidth(e, a, rw) && e == g[0].len() && a
                    == g[i as int].len() && rw@ == g[i as int]);
                return Err(err);
            }
            i = i + 1;
        }
        Ok(Level { grid, starting_point, finishing_point })
    }

    /// `Ok` iff exactly one of the point's coordinates lies on the perimeter.
    fn verify_point(height: isize, width: isize, point: Point) -> (r: Result<(), LevelCreationError>)
        requires
            0 < height < isize::MAX,
            0 <= width < isize::MAX,
        ensures
            on_perimeter(height as int, width as int, point) ==> r is Ok,
            !on_perimeter(height as int, width as int, point) ==> r == Err::<(), LevelCreationError>(
                LevelCreationError::PointLocation(point, (height + 1) as isize, (width + 1) as isize),
            ),
    {
        let x_per = Self::is_perimeter(height, width, point.x);
        let y_per = Self::is_perimeter(height, width, point.y);
        if (x_per && y_per) || (!x_per && !y_per) {
            return Err(LevelCreationError::PointLocation(point, height + 1, width + 1));
        }
        Ok(())
    }

    /// True iff `coord` is `0`, `height + 1` or `width + 1`.
    fn is_perimeter(height: isize, width: isize, coord: Coordinate) -> (r: bool)
        requires
            0 <= height < isize::MAX,
            0 <= width < isize::MAX,
        ensures
            r == perimeter_coord(height as int, width as int, coord as int),
    {
        coord == height + 1 || coord == width + 1 || coord == 0
    }

    /// The number of rows.
    pub fn get_height(&self) -> (r: isize)
        requires
            self.wf(),
        ensures
            r == self.spec_height(),
    {
        self.grid.len() as isize
    }

    /// The number of cells in each row.
    pub fn get_width(&self) -> (r: isize)
        requires
            self.wf(),
        ensures
            r == self.spec_width(),
    {
        assert(self.spec_grid()[0] == self.grid@[0]@);
        self.grid[0].len() as isize
    }

    /// The rows of cells, top row first.
    pub fn get_grid(&self) -> (r: &Vec<Vec<BlockType>>)
        ensures
            rows_of(r@) == self.spec_grid(),
    {
        &self.grid
    }

    /// Where the beam enters.
    pub fn get_starting_point(&self) -> (r: Point)
        ensures
            r == self.spec_start(),
    {
        self.starting_point
    }

    /// Where the beam is meant to leave.
    pub fn get_finishing_point(&self) -> (r: Point)
        ensures
            r == self.spec_finish(),
    {
        self.finishing_point
    }

    /// The point where the cell at `(row, col)` stands.
    pub fn cell_point(&self, row: usize, col: usize) -> (r: Point)
        requires
            self.wf(),
            row < self.spec_height(),
            col < self.spec_width(),
        ensures
            r == point_of_cell(self.spec_height(), row as int, col as int),
    {
        let height = self.get_height();
        Point { x: col as isize, y: height - 1 - row as isize }
    }

    /// One rotation click on the cell at `target`: a mirror there swaps its
    /// placement; any other cell, or a point off the grid, is left alone.
    pub fn rotate(&mut self, target: Point)
        requires
            old(self).wf(),
        ensures
            final(self).wf(),
            final(self).spec_grid() == rotate_at(old(self).spec_grid(), target),
            final(self).spec_start() == old(self).spec_start(),
            final(self).spec_finish() == old(self).spec_finish(),
    {
        let ghost g = self.spec_grid();
        let height = self.grid.len() as isize;
        assert(g[0] == self.grid@[0]@);
        let width = self.grid[0].len() as isize;
        if 0 <= target.x && target.x < width && 0 <= target.y && target.y < height {
            let row = (height - 1 - target.y) as usize;
            let col = target.x as usize;
            assert(g[row as int] == self.grid@[row as int]@);
            let mut cells = self.grid[row].clone();
            assert(cells@ =~= g[row as int]);
            let cell = cells[col];
            cells.set(col, cell.rotated());
            self.grid.set(row, cells);
            assert(self.spec_grid() =~= rotate_at(g, target));
        }
    }

    /// A rotation click that also turns every mirror among the target's four
    /// neighbours.
    pub fn rotate_propagating(&mut self, target: Point)
        requires
            old(self).wf(),
            isize::MIN < target.x < isize::MAX,
            isize::MIN < target.y < isize::MAX,
        ensures
            final(self).wf(),
            final(self).spec_grid() == rotate_all(old(self).spec_grid(), propagation_targets(target)),
            final(self).spec_start() == old(self).spec_start(),
            final(self).spec_finish() == old(self).spec_finish(),
    {
        let ghost g = self.spec_grid();
        let ghost ps = propagation_targets(target);
        self.rotate(target);
        assert(ps.take(1) =~= seq![target]);
        assert(rotate_all(g, ps.take(1)) == rotate_at(rotate_all(g, ps.take(1).drop_last()), target));
        assert(ps.take(1).drop_last() =~= Seq::<Point>::empty());
        let neighbours = Block::new(target.x, target.y).get_adjacent();
        let mut i: usize = 0;
        while i < 4
            invariant
                0 <= i <= 4,
                neighbours@.len() == 4,
                ps == propagation_targets(target),
                forall|k: int|
                    0 <= k < 4 ==> ps[k + 1].x == (#[trigger] neighbours@[k]).x && ps[k + 1].y
                        == neighbours@[k].y,
                self.wf(),
                self.spec_grid() == rotate_all(g, ps.take(i + 1)),
                self.spec_start() == old(self).spec_start(),
                self.spec_finish() == old(self).spec_finish(),
            decreases 4 - i,
        {
            let n = neighbours[i];
            let p = Point { x: n.x, y: n.y };
            assert(p == ps[i + 1]);
            self.rotate(p);
            assert(ps.take(i + 2).drop_last() =~= ps.take(i + 1));
            i = i + 1;
        }
        assert(ps.take(5) =~= ps);
    }
}

/// Every level has at least one row and all rows as wide as the first.
pub proof fn lemma_level_rectangular(level: &Level)
    requires
        level.wf(),
    ensures
        level.spec_height() >= 1,
        forall|i: int|
            0 <= i < level.spec_height() ==> (#[trigger] level.spec_grid()[i]).len()
                == level.spec_width(),
{
}

/// The entry and the exit point of every level each lie on exactly one
/// boundary line: exactly one of the two coordinates is `0`, `height + 1` or
/// `width + 1`.
pub proof fn lemma_level_points_on_perimeter(level: &Level)
    requires
        level.wf(),
    ensures
        on_perimeter(level.spec_height(), level.spec_width(), level.spec_start()),
        on_perimeter(level.spec_height(), level.spec_width(), level.spec_finish()),
{
}

/// Of a point that meets the perimeter rule and whose `x` is not `height + 1`
/// unless it is also `0` or `width + 1`, and whose `y` is not `width + 1`
/// unless it is also `0` or `height + 1`: exactly one of `x == 0`,
/// `x == width + 1`, `y == 0`, `y == height + 1` holds.
pub proof fn lemma_perimeter_point_one_side(height: int, width: int, p: Point)
    requires
        height >= 1,
        width >= 0,
        on_perimeter(height, width, p),
        p.x == height + 1 ==> (p.x == 0 || p.x == width + 1),
        p.y == width + 1 ==> (p.y == 0 || p.y == height + 1),
    ensures
        ({
            let x_side = p.x == 0 || p.x == width + 1;
            let y_side = p.y == 0 || p.y == height + 1;
            x_side != y_side
        }),
        !((p.x == 0 && p.x == width + 1) || (p.y == 0 && p.y == height + 1)),
{
}

/// Two rotation clicks on the same point give back the grid that was there
/// before.
pub proof fn lemma_rotate_at_twice(g: Seq<Seq<BlockType>>, p: Point)
    ensures
        rotate_at(rotate_at(g, p), p) == g,
{
    if 0 <= p.y < g.len() && 0 <= p.x < g[g.len() - 1 - p.y].len() {
        let row = g.len() - 1 - p.y;
        let x = p.x as int;
        let c = g[row][x];
        let g1 = rotate_at(g, p);
        assert(g1 == g.update(row, g[row].update(x, rotated(c))));
        assert(g1.len() == g.len());
        assert(g1[row][x] == rotated(c));
        crate::block_type::lemma_rotate_twice(c);
        assert(g1[row].update(x, rotated(g1[row][x])) =~= g[row]);
        assert(rotate_at(g1, p) =~= g);
    }
}

} // verus!

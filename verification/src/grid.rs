//! A dense, generic 3-D tile grid.
//!
//! Cells are addressed by `(x, y, z)`; `width`/`height`/`depth` count the
//! cells on each axis and `tile_width`/`tile_height`/`tile_depth` give the
//! physical size of one cell.  Construction fails if any of the six size
//! parameters is zero.

use vstd::pervasive::cloned;
use vstd::prelude::*;

verus! {

/// Returned when a grid is constructed with a zero size parameter.
#[derive(Clone, Copy, PartialEq, Eq, Structural, Debug)]
pub struct DimensionError;

/// A dense 3-D array of cells, stored depth-major, then row-major.
#[derive(Clone, PartialEq, Eq, Debug)]
pub struct Grid<T> {
    pub tile_width: usize,
    pub tile_height: usize,
    pub tile_depth: usize,
    pub width: usize,
    pub height: usize,
    pub depth: usize,
    pub elements: Vec<Vec<Vec<T>>>,
}

/// The flattened contents of one sheet: its rows, top to bottom.
pub open spec fn spec_flat_sheet<T>(sheet: Seq<Vec<T>>) -> Seq<T>
    decreases sheet.len(),
{
    if sheet.len() == 0 {
        Seq::empty()
    } else {
        sheet[0]@ + spec_flat_sheet(sheet.drop_first())
    }
}

/// The flattened contents of a grid: its sheets front to back, each sheet
/// row by row.
pub open spec fn spec_flat_grid<T>(elements: Seq<Vec<Vec<T>>>) -> Seq<T>
    decreases elements.len(),
{
    if elements.len() == 0 {
        Seq::empty()
    } else {
        spec_flat_sheet(elements[0]@) + spec_flat_grid(elements.drop_first())
    }
}

impl<T> Grid<T> {
    /// All six size parameters are positive.
    pub open spec fn spec_dims_positive(self) -> bool {
        &&& self.tile_width >= 1
        &&& self.tile_height >= 1
        &&& self.tile_depth >= 1
        &&& self.width >= 1
        &&& self.height >= 1
        &&& self.depth >= 1
    }

    /// Every sheet, row and cell declared by the dimensions is actually
    /// stored: the grid is fully populated.
    pub open spec fn spec_full(self) -> bool {
        &&& self.elements@.len() == self.depth
        &&& forall|z: int|
            0 <= z < self.depth ==> (#[trigger] self.elements@[z])@.len() == self.height
        &&& forall|z: int, y: int|
            0 <= z < self.depth && 0 <= y < self.height ==> (#[trigger] self.elements@[z]@[y])@.len()
                == self.width
    }

    /// A well-formed grid: positive dimensions, fully populated.
    pub open spec fn spec_wf(self) -> bool {
        self.spec_dims_positive() && self.spec_full()
    }

    /// Whether `(x, y, z)` lies inside the declared dimensions.
    pub open spec fn spec_in_range(self, x: int, y: int, z: int) -> bool {
        &&& 0 <= x < self.width
        &&& 0 <= y < self.height
        &&& 0 <= z < self.depth
    }

    /// Whether the cell `(x, y, z)` is actually stored.
    pub open spec fn spec_present(self, x: int, y: int, z: int) -> bool {
        &&& 0 <= z < self.elements@.len()
        &&& 0 <= y < self.elements@[z]@.len()
        &&& 0 <= x < self.elements@[z]@[y]@.len()
    }

    /// The stored cell at `(x, y, z)`.
    pub open spec fn spec_cell(self, x: int, y: int, z: int) -> T {
        self.elements@[z]@[y]@[x]
    }

    /// The six size parameters of `a` and `b` agree.
    pub open spec fn spec_same_dims(a: Grid<T>, b: Grid<T>) -> bool {
        &&& a.tile_width == b.tile_width
        &&& a.tile_height == b.tile_height
        &&& a.tile_depth == b.tile_depth
        &&& a.width == b.width
        &&& a.height == b.height
        &&& a.depth == b.depth
    }

    /// `b` is `a` with the cell at `(x, y, z)` replaced by `v` and nothing
    /// else changed.
    pub open spec fn spec_cell_updated(a: Grid<T>, b: Grid<T>, x: int, y: int, z: int, v: T) -> bool {
        &&& Self::spec_same_dims(a, b)
        &&& b.elements@.len() == a.elements@.len()
        &&& forall|i: int|
            0 <= i < a.elements@.len() && i != z ==> #[trigger] b.elements@[i] == a.elements@[i]
        &&& b.elements@[z]@.len() == a.elements@[z]@.len()
        &&& forall|j: int|
            0 <= j < a.elements@[z]@.len() && j != y ==> #[trigger] b.elements@[z]@[j]
                == a.elements@[z]@[j]
        &&& b.elements@[z]@[y]@ == a.elements@[z]@[y]@.update(x, v)
    }

    /// Creates a grid with the given cell size and cell counts.  Fails if
    /// any of the six parameters is zero.  Sheets and rows are allocated,
    /// but rows start empty: callers that need deterministic content use
    /// [`Grid::new_with_default`].
    pub fn new(
        tile_width: usize,
        tile_height: usize,
        tile_depth: usize,
        width: usize,
        height: usize,
        depth: usize,
    ) -> (r: Result<Grid<T>, DimensionError>)
        ensures
            r is Err <==> (tile_width == 0 || tile_height == 0 || tile_depth == 0 || width == 0
                || height == 0 || depth == 0),
            r matches Ok(g) ==> {
                &&& g.tile_width == tile_width
                &&& g.tile_height == tile_height
                &&& g.tile_depth == tile_depth
                &&& g.width == width
                &&& g.height == height
                &&& g.depth == depth
                &&& g.spec_dims_positive()
                &&& g.elements@.len() == depth
                &&& forall|z: int| 0 <= z < depth ==> (#[trigger] g.elements@[z])@.len() == height
                &&& forall|z: int, y: int|
                    0 <= z < depth && 0 <= y < height ==> (#[trigger] g.elements@[z]@[y])@.len()
                        == 0
            },
    {
        if tile_width == 0 || tile_height == 0 || tile_depth == 0 || width == 0 || height == 0
            || depth == 0 {
            return Err(DimensionError);
        }
        let mut elements: Vec<Vec<Vec<T>>> = Vec::with_capacity(depth);
        let mut z: usize = 0;
        while z < depth
            invariant
                z <= depth,
                elements@.len() == z,
                forall|i: int| 0 <= i < z ==> (#[trigger] elements@[i])@.len() == height,
                forall|i: int, j: int|
                    0 <= i < z && 0 <= j < height ==> (#[trigger] elements@[i]@[j])@.len() == 0,
            decreases depth - z,
        {
            let mut sheet: Vec<Vec<T>> = Vec::with_capacity(height);
            let mut y: usize = 0;
            while y < height
                invariant
                    y <= height,
                    sheet@.len() == y,
                    forall|j: int| 0 <= j < y ==> (#[trigger] sheet@[j])@.len() == 0,
                decreases height - y,
            {
                sheet.push(Vec::with_capacity(width));
                y = y + 1;
            }
            elements.push(sheet);
            z = z + 1;
        }
        Ok(
            Grid {
                tile_width,
                tile_height,
                tile_depth,
                width,
                height,
                depth,
                elements,
            },
        )
    }

    /// Whether `(x, y, z)` lies strictly inside all three cell counts.
    pub fn in_range(&self, x: usize, y: usize, z: usize) -> (r: bool)
        ensures
            r == self.spec_in_range(x as int, y as int, z as int),
    {
        self.height > y && self.width > x && self.depth > z
    }

    /// The cell at `(x, y, z)`, or `None` when the coordinate is out of
    /// range or the cell was never stored.
    pub fn at(&self, x: usize, y: usize, z: usize) -> (r: Option<&T>)
        ensures
            r is Some <==> (self.spec_in_range(x as int, y as int, z as int)
                && self.spec_present(x as int, y as int, z as int)),
            r matches Some(v) ==> *v == self.spec_cell(x as int, y as int, z as int),
    {
        if self.in_range(x, y, z) && z < self.elements.len() && y < self.elements[z].len() && x
            < self.elements[z][y].len() {
            Some(&self.elements[z][y][x])
        } else {
            None
        }
    }

    /// A mutable borrow of the cell at `(x, y, z)`, or `None` when the
    /// coordinate is out of range or the cell was never stored.
    pub fn at_mut(&mut self, x: usize, y: usize, z: usize) -> (r: Option<&mut T>)
        ensures
            r is Some <==> (old(self).spec_in_range(x as int, y as int, z as int) && old(
                self,
            ).spec_present(x as int, y as int, z as int)),
            r is None ==> *final(self) == *old(self),
            r is Some ==> *r.unwrap() == old(self).spec_cell(x as int, y as int, z as int)
                && Self::spec_cell_updated(
                *old(self),
                *final(self),
                x as int,
                y as int,
                z as int,
                *final(r.unwrap()),
            ),
    {
        if self.in_range(x, y, z) && z < self.elements.len() && y < self.elements[z].len() && x
            < self.elements[z][y].len() {
            Some(&mut self.elements[z][y][x])
        } else {
            None
        }
    }

    /// `b` is `a` with the row at `(y, z)` replaced by `row` and nothing
    /// else changed.
    pub open spec fn spec_row_updated(a: Grid<T>, b: Grid<T>, y: int, z: int, row: Seq<T>) -> bool {
        &&& Self::spec_same_dims(a, b)
        &&& b.elements@.len() == a.elements@.len()
        &&& (forall|i: int|
            0 <= i < a.elements@.len() && i != z ==> #[trigger] b.elements@[i] == a.elements@[i])
        &&& b.elements@[z]@.len() == a.elements@[z]@.len()
        &&& (forall|j: int|
            0 <= j < a.elements@[z]@.len() && j != y ==> #[trigger] b.elements@[z]@[j]
                == a.elements@[z]@[j])
        &&& b.elements@[z]@[y]@ == row
    }

    /// Whether the row at `(y, z)` is inside the declared dimensions and
    /// actually stored (the row itself may still be empty).
    pub open spec fn spec_row_exists(self, y: int, z: int) -> bool {
        &&& self.spec_in_range(0, y, z)
        &&& 0 <= z < self.elements@.len()
        &&& 0 <= y < self.elements@[z]@.len()
    }

    /// Appends a value to the row at `(y, z)`; a no-op when `(0, y, z)` is
    /// out of range or that row was never stored.
    pub fn push(&mut self, y: usize, z: usize, value: T)
        ensures
            old(self).spec_row_exists(y as int, z as int) ==> Self::spec_row_updated(
                *old(self),
                *final(self),
                y as int,
                z as int,
                old(self).elements@[z as int]@[y as int]@.push(value),
            ),
            !old(self).spec_row_exists(y as int, z as int) ==> *final(self) == *old(self),
    {
        if self.in_range(0, y, z) && z < self.elements.len() && y < self.elements[z].len() {
            self.elements[z][y].push(value);
        }
    }

    /// The total width of the grid: cell count times cell width.
    pub fn absolute_width(&self) -> (r: usize)
        requires
            self.tile_width * self.width <= usize::MAX,
        ensures
            r == self.tile_width * self.width,
    {
        self.tile_width * self.width
    }

    /// The total height of the grid: cell count times cell height.
    pub fn absolute_height(&self) -> (r: usize)
        requires
            self.tile_height * self.height <= usize::MAX,
        ensures
            r == self.tile_height * self.height,
    {
        self.tile_height * self.height
    }

    /// The total depth of the grid: cell count times cell depth.
    pub fn absolute_depth(&self) -> (r: usize)
        requires
            self.tile_depth * self.depth <= usize::MAX,
        ensures
            r == self.tile_depth * self.depth,
    {
        self.tile_depth * self.depth
    }

    /// Converts the grid into a linear vector, consuming it: sheets front
    /// to back, each sheet row by row, each row left to right.  Consumers
    /// of a fully populated grid may index the result by
    /// `(z * height + y) * width + x`.
    pub fn flatten(self) -> (r: Vec<T>)
        ensures
            r@ == spec_flat_grid(self.elements@),
    {
        let mut source = self;
        let ghost orig: Seq<Vec<Vec<T>>> = source.elements@;
        let mut result: Vec<T> = Vec::new();
        while source.elements.len() > 0
            invariant
                result@ + spec_flat_grid(source.elements@) == spec_flat_grid(orig),
            decreases source.elements.len(),
        {
            let ghost sheets_before: Seq<Vec<Vec<T>>> = source.elements@;
            let mut sheet: Vec<Vec<T>> = source.elements.remove(0);
            assert(result@ + (spec_flat_sheet(sheet@) + spec_flat_grid(source.elements@))
                == spec_flat_grid(orig)) by {
                assert(spec_flat_grid(sheets_before) == spec_flat_sheet(sheets_before[0]@)
                    + spec_flat_grid(sheets_before.drop_first()));
                assert(source.elements@ =~= sheets_before.drop_first());
            }
            assert(result@ + spec_flat_sheet(sheet@) + spec_flat_grid(source.elements@)
                == spec_flat_grid(orig)) by {
                assert(result@ + spec_flat_sheet(sheet@) + spec_flat_grid(source.elements@)
                    =~= result@ + (spec_flat_sheet(sheet@) + spec_flat_grid(source.elements@)));
            }
            while sheet.len() > 0
                invariant
                    result@ + spec_flat_sheet(sheet@) + spec_flat_grid(source.elements@)
                        == spec_flat_grid(orig),
                decreases sheet.len(),
            {
                let ghost rows_before: Seq<Vec<T>> = sheet@;
                let ghost pre: Seq<T> = result@;
                let mut row: Vec<T> = sheet.remove(0);
                result.append(&mut row);
                assert(result@ + spec_flat_sheet(sheet@) + spec_flat_grid(source.elements@)
                    == spec_flat_grid(orig)) by {
                    assert(spec_flat_sheet(rows_before) == rows_before[0]@ + spec_flat_sheet(
                        rows_before.drop_first(),
                    ));
                    assert(sheet@ =~= rows_before.drop_first());
                    assert(result@ + spec_flat_sheet(sheet@) =~= pre + spec_flat_sheet(
                        rows_before,
                    ));
                }
            }
            assert(result@ + spec_flat_grid(source.elements@) == spec_flat_grid(orig)) by {
                assert(spec_flat_sheet(sheet@) =~= Seq::<T>::empty());
                assert(result@ + spec_flat_sheet(sheet@) =~= result@);
            }
        }
        assert(result@ =~= result@ + spec_flat_grid(source.elements@));
        result
    }
}

/// The flattening of a sheet whose rows all hold `w` cells lays row `y`
/// out at offset `y * w`.
proof fn lemma_flat_sheet_layout<T>(sheet: Seq<Vec<T>>, w: int)
    requires
        w >= 0,
        forall|j: int| 0 <= j < sheet.len() ==> (#[trigger] sheet[j])@.len() == w,
    ensures
        spec_flat_sheet(sheet).len() == sheet.len() * w,
        forall|x: int, y: int|
            0 <= y < sheet.len() && 0 <= x < w ==> spec_flat_sheet(sheet)[y * w + x] == (
            #[trigger] sheet[y]@[x]),
    decreases sheet.len(),
{
    if sheet.len() == 0 {
        assert(sheet.len() * w == 0) by (nonlinear_arith)
            requires
                sheet.len() == 0;
    } else {
        let rest = sheet.drop_first();
        assert forall|j: int| 0 <= j < rest.len() implies (#[trigger] rest[j])@.len() == w by {
            assert(rest[j] == sheet[j + 1]);
        }
        lemma_flat_sheet_layout(rest, w);
        assert(spec_flat_sheet(sheet).len() == sheet.len() * w) by (nonlinear_arith)
            requires
                spec_flat_sheet(sheet).len() == w + rest.len() * w,
                rest.len() == sheet.len() - 1,
                sheet.len() >= 1;
        assert forall|x: int, y: int| 0 <= y < sheet.len() && 0 <= x < w implies spec_flat_sheet(
            sheet,
        )[y * w + x] == (#[trigger] sheet[y]@[x]) by {
            if y == 0 {
                assert(y * w + x == x) by (nonlinear_arith)
                    requires
                        y == 0;
            } else {
                assert(w <= y * w + x && y * w + x < sheet.len() * w && y * w + x - w == (y - 1)
                    * w + x) by (nonlinear_arith)
                    requires
                        1 <= y < sheet.len(),
                        0 <= x < w;
                assert(rest[y - 1] == sheet[y]);
                assert(spec_flat_sheet(rest)[(y - 1) * w + x] == rest[y - 1]@[x]);
            }
        }
    }
}

/// The flattening of fully populated sheets lays the cell `(x, y, z)`
/// out at offset `(z * h + y) * w + x`.
proof fn lemma_flat_grid_layout<T>(elements: Seq<Vec<Vec<T>>>, h: int, w: int)
    requires
        h >= 0,
        w >= 0,
        forall|i: int| 0 <= i < elements.len() ==> (#[trigger] elements[i])@.len() == h,
        forall|i: int, j: int|
            0 <= i < elements.len() && 0 <= j < h ==> (#[trigger] elements[i]@[j])@.len() == w,
    ensures
        spec_flat_grid(elements).len() == elements.len() * h * w,
        forall|x: int, y: int, z: int|
            0 <= z < elements.len() && 0 <= y < h && 0 <= x < w ==> spec_flat_grid(elements)[(z * h
                + y) * w + x] == (#[trigger] elements[z]@[y]@[x]),
    decreases elements.len(),
{
    if elements.len() == 0 {
        assert(elements.len() * h * w == 0) by (nonlinear_arith)
            requires
                elements.len() == 0;
    } else {
        let rest = elements.drop_first();
        lemma_flat_sheet_layout(elements[0]@, w);
        assert forall|i: int| 0 <= i < rest.len() implies (#[trigger] rest[i])@.len() == h by {
            assert(rest[i] == elements[i + 1]);
        }
        assert forall|i: int, j: int|
            0 <= i < rest.len() && 0 <= j < h implies (#[trigger] rest[i]@[j])@.len() == w by {
            assert(rest[i] == elements[i + 1]);
        }
        lemma_flat_grid_layout(rest, h, w);
        assert(spec_flat_grid(elements).len() == elements.len() * h * w) by (nonlinear_arith)
            requires
                spec_flat_grid(elements).len() == h * w + rest.len() * h * w,
                rest.len() == elements.len() - 1,
                elements.len() >= 1;
        assert forall|x: int, y: int, z: int|
            0 <= z < elements.len() && 0 <= y < h && 0 <= x < w implies spec_flat_grid(elements)[(z
            * h + y) * w + x] == (#[trigger] elements[z]@[y]@[x]) by {
            if z == 0 {
                assert((z * h + y) * w + x == y * w + x && 0 <= y * w + x < h * w) by (
                nonlinear_arith)
                    requires
                        z == 0,
                        0 <= y < h,
                        0 <= x < w;
                assert(spec_flat_sheet(elements[0]@)[y * w + x] == elements[0]@[y]@[x]);
            } else {
                assert(h * w <= (z * h + y) * w + x && (z * h + y) * w + x < elements.len() * h
                    * w && (z * h + y) * w + x - h * w == ((z - 1) * h + y) * w + x) by (
                nonlinear_arith)
                    requires
                        1 <= z < elements.len(),
                        0 <= y < h,
                        0 <= x < w;
                assert(rest[z - 1] == elements[z]);
                assert(spec_flat_grid(rest)[((z - 1) * h + y) * w + x] == rest[z - 1]@[y]@[x]);
            }
        }
    }
}

/// A fully populated grid flattens to exactly `depth * height * width`
/// cells, and a consumer finds the cell `(x, y, z)` at position
/// `(z * height + y) * width + x`: row-major, top to bottom, one sheet
/// after another.
pub proof fn lemma_flatten_layout<T>(g: Grid<T>)
    requires
        g.spec_full(),
    ensures
        spec_flat_grid(g.elements@).len() == g.depth * g.height * g.width,
        forall|x: int, y: int, z: int|
            g.spec_in_range(x, y, z) ==> spec_flat_grid(g.elements@)[(z * g.height + y) * g.width
                + x] == #[trigger] g.spec_cell(x, y, z),
{
    lemma_flat_grid_layout(g.elements@, g.height as int, g.width as int);
}

impl<T: Clone> Grid<T> {
    /// Creates a grid with every cell initialized to a clone of
    /// `default`.  Fails if any of the six size parameters is zero.
    pub fn new_with_default(
        tile_width: usize,
        tile_height: usize,
        tile_depth: usize,
        width: usize,
        height: usize,
        depth: usize,
        default: &T,
    ) -> (r: Result<Grid<T>, DimensionError>)
        ensures
            r is Err <==> (tile_width == 0 || tile_height == 0 || tile_depth == 0 || width == 0
                || height == 0 || depth == 0),
            r matches Ok(g) ==> {
                &&& g.tile_width == tile_width
                &&& g.tile_height == tile_height
                &&& g.tile_depth == tile_depth
                &&& g.width == width
                &&& g.height == height
                &&& g.depth == depth
                &&& g.spec_wf()
                &&& forall|x: int, y: int, z: int|
                    g.spec_in_range(x, y, z) ==> cloned::<T>(*default, #[trigger] g.spec_cell(x, y, z))
            },
    {
        match Grid::<T>::new(tile_width, tile_height, tile_depth, width, height, depth) {
            Ok(mut g) => {
                g.clear(default);
                Ok(g)
            },
            Err(e) => Err(e),
        }
    }

    /// Replaces every cell with a clone of `value`, repopulating the grid
    /// to its full declared dimensions.
    pub fn clear(&mut self, value: &T)
        ensures
            Self::spec_same_dims(*old(self), *final(self)),
            final(self).spec_full(),
            forall|x: int, y: int, z: int|
                final(self).spec_in_range(x, y, z) ==> cloned::<T>(
                    *value,
                    #[trigger] final(self).spec_cell(x, y, z),
                ),
    {
        let mut elements: Vec<Vec<Vec<T>>> = Vec::with_capacity(self.depth);
        let mut z: usize = 0;
        while z < self.depth
            invariant
                z <= self.depth,
                elements@.len() == z,
                forall|i: int| 0 <= i < z ==> (#[trigger] elements@[i])@.len() == self.height,
                forall|i: int, j: int|
                    0 <= i < z && 0 <= j < self.height ==> (#[trigger] elements@[i]@[j])@.len()
                        == self.width,
                forall|i: int, j: int, k: int|
                    0 <= i < z && 0 <= j < self.height && 0 <= k < self.width ==> cloned::<T>(
                        *value,
                        #[trigger] elements@[i]@[j]@[k],
                    ),
            decreases self.depth - z,
        {
            let mut sheet: Vec<Vec<T>> = Vec::with_capacity(self.height);
            let mut y: usize = 0;
            while y < self.height
                invariant
                    y <= self.height,
                    sheet@.len() == y,
                    forall|j: int| 0 <= j < y ==> (#[trigger] sheet@[j])@.len() == self.width,
                    forall|j: int, k: int|
                        0 <= j < y && 0 <= k < self.width ==> cloned::<T>(
                            *value,
                            #[trigger] sheet@[j]@[k],
                        ),
                decreases self.height - y,
            {
                let mut row: Vec<T> = Vec::with_capacity(self.width);
                let mut x: usize = 0;
                while x < self.width
                    invariant
                        x <= self.width,
                        row@.len() == x,
                        forall|k: int| 0 <= k < x ==> cloned::<T>(*value, #[trigger] row@[k]),
                    decreases self.width - x,
                {
                    row.push(value.clone());
                    x = x + 1;
                }
                sheet.push(row);
                y = y + 1;
            }
            elements.push(sheet);
            z = z + 1;
        }
        self.elements = elements;
    }

    /// Overwrites the cell at `(x, y, z)`; a no-op (not an error) when the
    /// coordinate is out of range — callers that need to detect that case
    /// call [`Grid::in_range`] first.
    pub fn insert(&mut self, x: usize, y: usize, z: usize, value: T)
        ensures
            (old(self).spec_in_range(x as int, y as int, z as int) && old(self).spec_present(
                x as int,
                y as int,
                z as int,
            )) ==> Self::spec_cell_updated(
                *old(self),
                *final(self),
                x as int,
                y as int,
                z as int,
                value,
            ),
            !(old(self).spec_in_range(x as int, y as int, z as int) && old(self).spec_present(
                x as int,
                y as int,
                z as int,
            )) ==> *final(self) == *old(self),
    {
        if self.in_range(x, y, z) && z < self.elements.len() && y < self.elements[z].len() && x
            < self.elements[z][y].len() {
            self.elements[z][y][x] = value;
        }
    }
}

impl<T: Copy> Grid<T> {
    /// Grows or shrinks each axis independently: new cells are filled with
    /// `value`, shrinking truncates.  The declared cell counts are updated
    /// to the new sizes; cell sizes are kept.
    pub fn resize(&mut self, width: usize, height: usize, depth: usize, value: T)
        ensures
            final(self).tile_width == old(self).tile_width,
            final(self).tile_height == old(self).tile_height,
            final(self).tile_depth == old(self).tile_depth,
            final(self).width == width,
            final(self).height == height,
            final(self).depth == depth,
            final(self).elements@.len() == depth,
            forall|z: int| 0 <= z < depth ==> (#[trigger] final(self).elements@[z])@.len() == height,
            forall|z: int, y: int|
                0 <= z < depth && 0 <= y < height ==> (#[trigger] final(self).elements@[z]@[y])@.len()
                    == width,
            forall|x: int, y: int, z: int|
                0 <= x < width && 0 <= y < height && 0 <= z < depth
                    ==> #[trigger] final(self).spec_cell(x, y, z) == (if old(self).spec_present(x, y, z) {
                    old(self).spec_cell(x, y, z)
                } else {
                    value
                }),
    {
        let ghost prior: Grid<T> = *self;
        let mut elements: Vec<Vec<Vec<T>>> = Vec::with_capacity(depth);
        let mut z: usize = 0;
        while z < depth
            invariant
                z <= depth,
                *self == prior,
                elements@.len() == z,
                forall|i: int| 0 <= i < z ==> (#[trigger] elements@[i])@.len() == height,
                forall|i: int, j: int|
                    0 <= i < z && 0 <= j < height ==> (#[trigger] elements@[i]@[j])@.len() == width,
                forall|k: int, j: int, i: int|
                    0 <= i < z && 0 <= j < height && 0 <= k < width
                        ==> #[trigger] elements@[i]@[j]@[k] == (if prior.spec_present(k, j, i) {
                        prior.spec_cell(k, j, i)
                    } else {
                        value
                    }),
            decreases depth - z,
        {
            let mut sheet: Vec<Vec<T>> = Vec::with_capacity(height);
            let mut y: usize = 0;
            while y < height
                invariant
                    y <= height,
                    *self == prior,
                    z < depth,
                    sheet@.len() == y,
                    forall|j: int| 0 <= j < y ==> (#[trigger] sheet@[j])@.len() == width,
                    forall|k: int, j: int|
                        0 <= j < y && 0 <= k < width ==> #[trigger] sheet@[j]@[k] == (
                        if prior.spec_present(k, j, z as int) {
                            prior.spec_cell(k, j, z as int)
                        } else {
                            value
                        }),
                decreases height - y,
            {
                let mut row: Vec<T> = Vec::with_capacity(width);
                let mut x: usize = 0;
                while x < width
                    invariant
                        x <= width,
                        *self == prior,
                        z < depth,
                        y < height,
                        row@.len() == x,
                        forall|k: int|
                            0 <= k < x ==> #[trigger] row@[k] == (if prior.spec_present(
                                k,
                                y as int,
                                z as int,
                            ) {
                                prior.spec_cell(k, y as int, z as int)
                            } else {
                                value
                            }),
                    decreases width - x,
                {
                    if z < self.elements.len() && y < self.elements[z].len() && x
                        < self.elements[z][y].len() {
                        let kept: T = self.elements[z][y][x];
                        row.push(kept);
                    } else {
                        row.push(value);
                    }
                    x = x + 1;
                }
                sheet.push(row);
                y = y + 1;
            }
            elements.push(sheet);
            z = z + 1;
        }
        self.elements = elements;
        self.width = width;
        self.height = height;
        self.depth = depth;
    }
}

} // verus!

use vstd::prelude::*;

verus! {

/// Why a buffer could not be built or a cell could not be reached.
#[derive(Debug, Clone, Copy, PartialEq, Eq, Structural)]
pub enum ImageError {
    /// The buffer does not hold `width * height` cells.
    DimensionMismatch,
    /// The coordinate lies outside `[0, width) x [0, height)`.
    OutOfBounds,
}

/// The mathematical content of an [`Image`]: its cells in row-major order
/// and its dimensions.
pub struct GridView<T> {
    pub cells: Seq<T>,
    pub width: nat,
    pub height: nat,
}

impl<T> GridView<T> {
    /// There is exactly one cell per coordinate.
    pub open spec fn wf(self) -> bool {
        self.cells.len() == self.width * self.height
    }

    /// Whether `(x, y)` is a coordinate of the grid.
    pub open spec fn inside(self, x: int, y: int) -> bool {
        0 <= x < self.width && 0 <= y < self.height
    }

    /// Position of `(x, y)` in the row-major cell sequence.
    pub open spec fn offset(self, x: int, y: int) -> int {
        y * self.width + x
    }

    /// The cell at `(x, y)`.
    pub open spec fn at(self, x: int, y: int) -> T
        recommends
            self.inside(x, y),
    {
        self.cells[self.offset(x, y)]
    }

    /// The grid with the cell at `(x, y)` replaced by `value`.
    pub open spec fn set(self, x: int, y: int, value: T) -> GridView<T> {
        GridView { cells: self.cells.update(self.offset(x, y), value), ..self }
    }

    /// Every coordinate of the grid can be written as a pair of `i32`.
    pub open spec fn addressable(self) -> bool {
        self.width <= i32::MAX && self.height <= i32::MAX
    }

    /// Coordinates inside the grid have their own cell: the offset is in
    /// range, and different coordinates have different offsets.
    pub proof fn lemma_offset(self, x: int, y: int)
        requires
            self.wf(),
            self.inside(x, y),
        ensures
            0 <= y * self.width <= self.offset(x, y) < self.cells.len(),
            self.offset(x, y) % (self.width as int) == x,
            self.offset(x, y) / (self.width as int) == y,
    {
        let w = self.width as int;
        let h = self.height as int;
        assert(0 <= y * w && y * w + w <= h * w) by (nonlinear_arith)
            requires
                0 <= y < h,
                0 < w,
        ;
        vstd::arithmetic::div_mod::lemma_fundamental_div_mod_converse(y * w + x, w, y, x);
    }

    /// Every cell belongs to a coordinate inside the grid: the column is the
    /// offset modulo the width, the row the offset divided by the width.
    pub proof fn lemma_coord(self, k: int)
        requires
            self.wf(),
            0 <= k < self.cells.len(),
        ensures
            self.inside(k % (self.width as int), k / (self.width as int)),
            self.offset(k % (self.width as int), k / (self.width as int)) == k,
    {
        let w = self.width as int;
        let h = self.height as int;
        assert(w > 0) by (nonlinear_arith)
            requires
                0 <= k < w * h,
                0 <= w,
                0 <= h,
        ;
        vstd::arithmetic::div_mod::lemma_fundamental_div_mod(k, w);
        vstd::arithmetic::div_mod::lemma_mod_bound(k, w);
        let y = k / w;
        let x = k % w;
        assert(k == w * y + x);
        assert(0 <= y < h) by (nonlinear_arith)
            requires
                k == w * y + x,
                0 <= x < w,
                0 <= k < w * h,
                0 < w,
        ;
        assert(w * y == y * w) by (nonlinear_arith);
    }

    /// Two coordinates inside the grid share a cell only if they are equal.
    pub proof fn lemma_offset_injective(self, x1: int, y1: int, x2: int, y2: int)
        requires
            self.wf(),
            self.inside(x1, y1),
            self.inside(x2, y2),
            self.offset(x1, y1) == self.offset(x2, y2),
        ensures
            x1 == x2,
            y1 == y2,
    {
        self.lemma_offset(x1, y1);
        self.lemma_offset(x2, y2);
    }
}

/// A `width` by `height` buffer of cells, stored row by row.
#[derive(PartialEq, Eq, Debug)]
pub struct Image<T: Clone + Copy> {
    data: Vec<T>,
    width: usize,
    height: usize,
}

impl<T: Copy + Clone> View for Image<T> {
    type V = GridView<T>;

    closed spec fn view(&self) -> GridView<T> {
        GridView { cells: self.data@, width: self.width as nat, height: self.height as nat }
    }
}

impl<T: Copy + Clone> Image<T> {
    /// Every image holds one cell per coordinate.
    #[verifier::type_invariant]
    pub closed spec fn inv(&self) -> bool {
        self.data@.len() == self.width * self.height
    }

    /// The invariant of the type, for callers: the view is well formed and
    /// its dimensions are machine sized.
    pub proof fn lemma_view_wf(&self)
        requires
            self.inv(),
        ensures
            self@.wf(),
            self@.width <= usize::MAX,
            self@.height <= usize::MAX,
            self@.cells.len() <= usize::MAX,
    {
        assert(self.data.len() <= usize::MAX);
    }

    /// Wraps `data` as an image of the given dimensions. The buffer must
    /// hold exactly `width * height` cells.
    pub fn from_data(data: Vec<T>, width: usize, height: usize) -> (r: Result<Image<T>, ImageError>)
        ensures
            r is Ok <==> data@.len() == width * height,
            r matches Ok(img) ==> img.inv() && img@ == (GridView {
                cells: data@,
                width: width as nat,
                height: height as nat,
            }),
            r matches Err(e) ==> e == ImageError::DimensionMismatch,
    {
        assert(data.len() <= usize::MAX);
        match width.checked_mul(height) {
            Some(n) => {
                if data.len() == n {
                    Ok(Image { data, width, height })
                } else {
                    Err(ImageError::DimensionMismatch)
                }
            },
            None => Err(ImageError::DimensionMismatch),
        }
    }

    /// Width and height, in this order.
    pub fn dimensions(&self) -> (d: (usize, usize))
        ensures
            d.0 == self@.width,
            d.1 == self@.height,
    {
        (self.width, self.height)
    }

    /// Number of columns.
    pub fn width(&self) -> (w: usize)
        ensures
            w == self@.width,
    {
        self.width
    }

    /// Number of rows.
    pub fn height(&self) -> (h: usize)
        ensures
            h == self@.height,
    {
        self.height
    }

    /// Whether `(x, y)` is a coordinate of the image.
    pub fn inside(&self, x: i32, y: i32) -> (b: bool)
        ensures
            b == self@.inside(x as int, y as int),
    {
        x >= 0 && y >= 0 && (x as usize) < self.width && (y as usize) < self.height
    }

    /// The cell at `(x, y)`, or `OutOfBounds` for a coordinate outside the
    /// image.
    pub fn get(&self, x: i32, y: i32) -> (r: Result<T, ImageError>)
        ensures
            r is Ok <==> self@.inside(x as int, y as int),
            r matches Ok(v) ==> v == self@.at(x as int, y as int),
            r matches Err(e) ==> e == ImageError::OutOfBounds,
    {
        if self.inside(x, y) {
            Ok(self.pixel(x, y))
        } else {
            Err(ImageError::OutOfBounds)
        }
    }

    /// Replaces the cell at `(x, y)`, or reports `OutOfBounds` and changes
    /// nothing for a coordinate outside the image.
    pub fn set(&mut self, x: i32, y: i32, value: T) -> (r: Result<(), ImageError>)
        ensures
            r is Ok <==> old(self)@.inside(x as int, y as int),
            r is Ok ==> final(self)@ == old(self)@.set(x as int, y as int, value),
            r matches Err(e) ==> e == ImageError::OutOfBounds && final(self)@ == old(self)@,
    {
        if self.inside(x, y) {
            self.set_pixel(x, y, value);
            Ok(())
        } else {
            Err(ImageError::OutOfBounds)
        }
    }

    /// The cell at `(x, y)`, which must be inside the image.
    pub fn pixel(&self, x: i32, y: i32) -> (v: T)
        requires
            self@.inside(x as int, y as int),
        ensures
            v == self@.at(x as int, y as int),
    {
        proof {
            use_type_invariant(self);
            self.lemma_view_wf();
            self@.lemma_offset(x as int, y as int);
        }
        self.data[(y as usize) * self.width + (x as usize)]
    }

    /// Replaces the cell at `(x, y)`, which must be inside the image.
    pub fn set_pixel(&mut self, x: i32, y: i32, value: T)
        requires
            old(self)@.inside(x as int, y as int),
        ensures
            final(self)@ == old(self)@.set(x as int, y as int, value),
    {
        proof {
            use_type_invariant(&*self);
            self.lemma_view_wf();
            self@.lemma_offset(x as int, y as int);
        }
        let i: usize = (y as usize) * self.width + (x as usize);
        self.data[i] = value;
    }

    /// A new image of the same dimensions whose cells are `fun` applied to
    /// the cells of this one, cell by cell.
    pub fn map<F, A: Copy + Clone>(&self, fun: F) -> (r: Image<A>) where F: Fn(&T) -> A
        requires
            forall|i: int| 0 <= i < self@.cells.len() ==> call_requires(fun, (&#[trigger] self@.cells[i],)),
        ensures
            r@.width == self@.width,
            r@.height == self@.height,
            r@.cells.len() == self@.cells.len(),
            forall|i: int|
                0 <= i < self@.cells.len() ==> call_ensures(fun, (&self@.cells[i],), #[trigger] r@.cells[i]),
    {
        proof {
            use_type_invariant(self);
        }
        let mut out: Vec<A> = Vec::new();
        let mut i: usize = 0;
        while i < self.data.len()
            invariant
                i <= self.data.len(),
                out.len() == i,
                forall|k: int| 0 <= k < self@.cells.len() ==> call_requires(fun, (&#[trigger] self@.cells[k],)),
                forall|k: int| 0 <= k < i ==> call_ensures(fun, (&self@.cells[k],), #[trigger] out@[k]),
            decreases self.data.len() - i,
        {
            assert(self@.cells[i as int] == self.data@[i as int]);
            out.push(fun(&self.data[i]));
            i += 1;
        }
        Image { data: out, width: self.width, height: self.height }
    }

    /// The cells, row by row.
    pub fn data<'a>(&'a self) -> (d: &'a [T])
        ensures
            d@ == self@.cells,
    {
        self.data.as_slice()
    }
}

impl<T: Copy + Clone> Clone for Image<T> {
    /// A copy with the same dimensions and cells.
    fn clone(&self) -> (r: Self)
        ensures
            r@ == self@,
    {
        proof {
            use_type_invariant(self);
        }
        let mut out: Vec<T> = Vec::new();
        let mut i: usize = 0;
        while i < self.data.len()
            invariant
                i <= self.data.len(),
                out@ == self.data@.subrange(0, i as int),
            decreases self.data.len() - i,
        {
            out.push(self.data[i]);
            i += 1;
        }
        assert(out@ == self.data@);
        Image { data: out, width: self.width, height: self.height }
    }
}

impl<T: Copy + Clone> std::ops::Index<(usize, usize)> for Image<T> {
    type Output = T;

    /// The cell at column `p.0` and row `p.1`, which must be inside the
    /// image.
    fn index(&self, p: (usize, usize)) -> (v: &T)
        ensures
            *v == self@.at(p.0 as int, p.1 as int),
    {
        proof {
            use_type_invariant(self);
            self.lemma_view_wf();
            self@.lemma_offset(p.0 as int, p.1 as int);
        }
        &self.data[p.1 * self.width + p.0]
    }
}

impl<T: Copy + Clone> vstd::std_specs::core::IndexSpecImpl<(usize, usize)> for Image<T> {
    open spec fn index_req(&self, index: &(usize, usize)) -> bool {
        self@.inside(index.0 as int, index.1 as int)
    }
}

} // verus!

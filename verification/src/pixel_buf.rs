//! Colours, and a buffer of them with checked access, filled boxes and stepped lines.

use vstd::prelude::*;
use vstd::std_specs::cmp::PartialOrdIs;
use vstd::std_specs::ops::AddSpec;
use vstd::std_specs::ops::SubSpec;
use crate::error::Error;
use crate::scalar::obeys;
use crate::scalar::one;
use crate::scalar::one_spec;
use crate::scalar::Scalar;
use crate::vec2::Vec2;

verus! {

/// One cell of a buffer: red, green, blue and opacity.
#[derive(Clone, Copy, Debug, PartialEq, Eq, Structural)]
pub struct Color {
    pub r: u8,
    pub g: u8,
    pub b: u8,
    pub a: u8,
}

impl Color {
    /// The colour of the given channels.
    pub fn new(r: u8, g: u8, b: u8, a: u8) -> (c: Self)
        ensures
            c == (Color { r, g, b, a }),
    {
        Self { r, g, b, a }
    }

    /// Black that lets everything through.
    pub fn transparent() -> (c: Self)
        ensures
            c == (Color { r: 0, g: 0, b: 0, a: 0 }),
    {
        Self::new(0, 0, 0, 0)
    }

    /// Opaque black.
    pub fn black() -> (c: Self)
        ensures
            c == (Color { r: 0, g: 0, b: 0, a: 255 }),
    {
        Self::new(0, 0, 0, 255)
    }

    /// Opaque white.
    pub fn white() -> (c: Self)
        ensures
            c == (Color { r: 255, g: 255, b: 255, a: 255 }),
    {
        Self::new(255, 255, 255, 255)
    }

    /// Opaque red.
    pub fn red() -> (c: Self)
        ensures
            c == (Color { r: 255, g: 0, b: 0, a: 255 }),
    {
        Self::new(255, 0, 0, 255)
    }

    /// Opaque green.
    pub fn green() -> (c: Self)
        ensures
            c == (Color { r: 0, g: 255, b: 0, a: 255 }),
    {
        Self::new(0, 255, 0, 255)
    }

    /// Opaque blue.
    pub fn blue() -> (c: Self)
        ensures
            c == (Color { r: 0, g: 0, b: 255, a: 255 }),
    {
        Self::new(0, 0, 255, 255)
    }
}

/// A grid of `width * height` cells, stored row by row.
pub struct PixelBuffer {
    pub data: Vec<Color>,
    pub width: usize,
    pub height: usize,
}

/// What a buffer holds: its cells, row by row, and its dimensions.
pub struct Canvas {
    pub cells: Seq<Color>,
    pub width: nat,
    pub height: nat,
}

impl View for PixelBuffer {
    type V = Canvas;

    open spec fn view(&self) -> Canvas {
        Canvas { cells: self.data@, width: self.width as nat, height: self.height as nat }
    }
}

impl Canvas {
    /// There is exactly one cell for each coordinate.
    pub open spec fn wf(self) -> bool {
        self.cells.len() == self.width * self.height
    }

    /// There is a cell for each coordinate. This is what writing needs; storage that is
    /// longer than the grid is left alone past the last row.
    pub open spec fn covers(self) -> bool {
        self.cells.len() >= self.width * self.height
    }

    /// The row-major index of `(x, y)`.
    pub open spec fn index_of(self, x: nat, y: nat) -> nat {
        y * self.width + x
    }

    /// `(x, y)` lies inside the grid.
    pub open spec fn in_bounds(self, x: nat, y: nat) -> bool {
        x < self.width && y < self.height
    }

    /// What is read at `(x, y)`: the cell at the row-major index, if the storage has one.
    pub open spec fn get(self, x: nat, y: nat) -> Option<Color> {
        if self.index_of(x, y) < self.cells.len() {
            Some(self.cells[self.index_of(x, y) as int])
        } else {
            None
        }
    }

    /// The canvas with the cell at `(x, y)` replaced.
    pub open spec fn put(self, x: nat, y: nat, c: Color) -> Canvas {
        Canvas { cells: self.cells.update(self.index_of(x, y) as int, c), ..self }
    }

    /// The canvas with the cell at `(x, y)` replaced where that lies inside the grid, and
    /// unchanged where it does not.
    pub open spec fn plot(self, x: nat, y: nat, c: Color) -> Canvas {
        if self.in_bounds(x, y) {
            self.put(x, y, c)
        } else {
            self
        }
    }

    /// `(x, y)` lies in the box from `(x0, y0)` up to, but not including, `(x1, y1)`; in a
    /// hollow box, on its edge.
    pub open spec fn in_box(
        x: nat,
        y: nat,
        x0: nat,
        y0: nat,
        x1: nat,
        y1: nat,
        hollow: bool,
    ) -> bool {
        &&& x0 <= x < x1
        &&& y0 <= y < y1
        &&& hollow ==> x == x0 || x + 1 == x1 || y == y0 || y + 1 == y1
    }

    /// The canvas with every cell of a box replaced, as far as the box lies inside the grid.
    pub open spec fn paint_box(
        self,
        x0: nat,
        y0: nat,
        x1: nat,
        y1: nat,
        hollow: bool,
        c: Color,
    ) -> Canvas {
        Canvas {
            cells: Seq::new(
                self.cells.len(),
                |i: int|
                    if self.width > 0 && i / (self.width as int) < self.height && Self::in_box(
                        (i % self.width as int) as nat,
                        (i / self.width as int) as nat,
                        x0,
                        y0,
                        x1,
                        y1,
                        hollow,
                    ) {
                        c
                    } else {
                        self.cells[i]
                    },
            ),
            ..self
        }
    }

    /// The canvas with every cell replaced.
    pub open spec fn fill(self, c: Color) -> Canvas {
        Canvas { cells: Seq::new(self.cells.len(), |i: int| c), ..self }
    }
}

impl Canvas {
    /// What is left of the way from `cur` to `end`, cut to whole numbers.
    pub open spec fn line_rest<R: Scalar>(cur: Vec2<R>, end: Vec2<isize>) -> Vec2<R> {
        end.cast_spec::<R>().sub_spec(cur).cast_spec::<isize>().cast_spec::<R>()
    }

    /// The line has arrived: what is left of the way is no longer than one.
    pub open spec fn line_done<R: Scalar>(cur: Vec2<R>, end: Vec2<isize>) -> bool {
        Self::line_rest(cur, end).magn_spec().is_le(&one_spec::<R>())
    }

    /// Where the line stands after the step from `cur`: one unit further toward `end`.
    pub open spec fn line_next<R: Scalar>(cur: Vec2<R>, end: Vec2<isize>) -> Vec2<R> {
        cur.add_spec(Self::line_rest(cur, end).normalized_spec())
    }

    /// The arithmetic of the next `fuel` steps from `cur` can be carried out.
    pub open spec fn line_req<R: Scalar>(cur: Vec2<R>, end: Vec2<isize>, fuel: nat) -> bool
        decreases fuel,
    {
        fuel == 0 || {
            &&& end.cast_spec::<R>().sub_req(cur)
            &&& Self::line_rest(cur, end).normalize_req()
            &&& !Self::line_done(cur, end) ==> {
                &&& cur.add_req(Self::line_rest(cur, end).normalized_spec())
                &&& Self::line_req(Self::line_next(cur, end), end, (fuel - 1) as nat)
            }
        }
    }

    /// The canvas with the cell `pos` replaced where that lies inside the grid, and unchanged
    /// where it lies left of, above, right of or below the grid.
    pub open spec fn plot_at(self, pos: Vec2<isize>, c: Color) -> Canvas {
        if pos.x < 0 || pos.y < 0 {
            self
        } else {
            self.plot(pos.x as nat, pos.y as nat, c)
        }
    }

    /// The canvas after a line has gone on from `cur` toward `end` for at most `fuel` steps:
    /// until it arrives, each step colours the cell that the line stands in, where that cell
    /// lies inside the grid, and moves on by one unit. The cell that the line stands in is
    /// its position cut toward zero, so that a position between minus one and zero stands in
    /// the cell zero; a position at minus one or below stands outside the grid.
    pub open spec fn line_from<R: Scalar>(
        self,
        cur: Vec2<R>,
        end: Vec2<isize>,
        c: Color,
        fuel: nat,
    ) -> Canvas
        decreases fuel,
    {
        if fuel == 0 || Self::line_done(cur, end) {
            self
        } else {
            self.plot_at(cur.cast_spec::<isize>(), c).line_from(
                Self::line_next(cur, end),
                end,
                c,
                (fuel - 1) as nat,
            )
        }
    }

    /// The canvas with a line drawn from `start` toward `end`, stepped in the numeric
    /// representation `R`. A line from a point to itself draws nothing.
    pub open spec fn line<R: Scalar>(
        self,
        start: Vec2<isize>,
        end: Vec2<isize>,
        c: Color,
    ) -> Canvas {
        if start == end {
            self
        } else {
            self.line_from(start.cast_spec::<R>(), end, c, usize::MAX as nat)
        }
    }
}

impl PixelBuffer {
    /// A buffer of `w` by `h` cells, all of them opaque black.
    pub fn new(w: usize, h: usize) -> (buf: Self)
        requires
            w * h <= usize::MAX,
        ensures
            buf@.wf(),
            buf@ == (Canvas {
                cells: Seq::new((w * h) as nat, |i: int| Color { r: 0, g: 0, b: 0, a: 255 }),
                width: w as nat,
                height: h as nat,
            }),
    {
        let buf = Self { data: vec![Color::new(0, 0, 0, 255); w * h], width: w, height: h };
        assert(buf.data@ =~= Seq::new((w * h) as nat, |i: int| Color { r: 0, g: 0, b: 0, a: 255 }));
        buf
    }

    /// The row-major index of `(x, y)`, where the storage has a cell there.
    pub fn addr(&self, x: usize, y: usize) -> (r: Option<usize>)
        ensures
            match r {
                Some(addr) => {
                    &&& addr == self@.index_of(x as nat, y as nat)
                    &&& addr < self@.cells.len()
                },
                None => self@.index_of(x as nat, y as nat) >= self@.cells.len(),
            },
    {
        let len = self.data.len();
        let row = match y.checked_mul(self.width) {
            Some(row) => row,
            None => {
                return None;
            },
        };
        match row.checked_add(x) {
            Some(addr) => if addr < len {
                Some(addr)
            } else {
                None
            },
            None => None,
        }
    }

    /// Replaces the cell at `(x, y)`; refuses a coordinate outside the grid.
    pub fn put(&mut self, x: usize, y: usize, c: Color) -> (r: Result<(), Error>)
        requires
            old(self)@.covers(),
        ensures
            match r {
                Ok(_) => old(self)@.in_bounds(x as nat, y as nat) && final(self)@ == old(self)@.put(
                    x as nat,
                    y as nat,
                    c,
                ),
                Err(e) => {
                    &&& !old(self)@.in_bounds(x as nat, y as nat)
                    &&& final(self)@ == old(self)@
                    &&& e == (Error::OutOfBounds2D {
                        point: (x, y),
                        range: (0..old(self).width, 0..old(self).height),
                    })
                },
            },
            final(self)@.cells.len() == old(self)@.cells.len(),
            final(self)@.width == old(self)@.width,
            final(self)@.height == old(self)@.height,
    {
        if x >= self.width || y >= self.height {
            return Err(
                Error::OutOfBounds2D { point: (x, y), range: (0..self.width, 0..self.height) },
            );
        }
        proof {
            lemma_index_in_grid(x as int, y as int, self.width as int, self.height as int);
            // The storage is a vector, and a vector's length is a `usize`.
            assert(self.data.len() == self.data@.len());
        }
        let at = y * self.width + x;
        self.data[at] = c;
        Ok(())
    }

    /// The cell at `(x, y)`, where the storage has one at its row-major index.
    pub fn get(&self, x: usize, y: usize) -> (r: Option<&Color>)
        ensures
            match r {
                Some(c) => self@.get(x as nat, y as nat) == Some(*c),
                None => self@.get(x as nat, y as nat).is_none(),
            },
    {
        match self.addr(x, y) {
            Some(addr) => Some(&self.data[addr]),
            None => None,
        }
    }

    /// Replaces every cell.
    pub fn fill(&mut self, c: Color)
        ensures
            final(self)@ == old(self)@.fill(c),
    {
        let n = self.data.len();
        let mut i: usize = 0;
        while i < n
            invariant
                i <= n,
                n == self.data@.len(),
                n == old(self).data@.len(),
                self.width == old(self).width,
                self.height == old(self).height,
                forall|j: int| 0 <= j < i ==> self.data@[j] == c,
            decreases n - i,
        {
            self.data[i] = c;
            i += 1;
        }
        assert(self.data@ =~= old(self)@.fill(c).cells);
    }

    /// Draws a line from `start` toward `end` by unit steps in the numeric representation
    /// `R`: each step takes what is left of the way, cut to whole numbers, stops where that
    /// is no longer than one, and else colours the cell it stands in and moves one unit along
    /// it. The cell it stands in is its position cut toward zero. Cells outside the grid, on
    /// any side of it, are passed over. The line gives up after `usize::MAX` steps.
    pub fn line<R: Scalar>(&mut self, start: Vec2<isize>, end: Vec2<isize>, color: Color)
        requires
            old(self)@.covers(),
            obeys::<R>(),
            start != end ==> Canvas::line_req::<R>(start.cast_spec::<R>(), end, usize::MAX as nat),
        ensures
            final(self)@ == old(self)@.line::<R>(start, end, color),
            start == end ==> final(self)@ == old(self)@,
            final(self)@.cells.len() == old(self)@.cells.len(),
            final(self)@.width == old(self)@.width,
            final(self)@.height == old(self)@.height,
    {
        let mut cur: Vec2<R> = start.cast::<R>();
        if start == end {
            return ;
        }
        let mut steps: usize = 0;
        while steps < usize::MAX
            invariant
                self@.covers(),
                self@.cells.len() == old(self)@.cells.len(),
                self@.width == old(self)@.width,
                self@.height == old(self)@.height,
                obeys::<R>(),
                Canvas::line_req::<R>(cur, end, (usize::MAX - steps) as nat),
                self@.line_from(cur, end, color, (usize::MAX - steps) as nat) == old(
                    self,
                )@.line_from(start.cast_spec::<R>(), end, color, usize::MAX as nat),
            ensures
                self@.cells.len() == old(self)@.cells.len(),
                self@.width == old(self)@.width,
                self@.height == old(self)@.height,
                self@ == old(self)@.line_from(
                    start.cast_spec::<R>(),
                    end,
                    color,
                    usize::MAX as nat,
                ),
            decreases usize::MAX - steps,
        {
            let rest: Vec2<isize> = (end.cast::<R>() - cur).cast::<isize>();
            let mut unit: Vec2<R> = rest.cast::<R>();
            let goal = unit.normalize();
            if goal <= one() {
                break ;
            }
            let cell: Vec2<isize> = cur.cast::<isize>();
            if cell.x >= 0 && cell.y >= 0 {
                let _ = self.put(cell.x as usize, cell.y as usize, color);
            }
            cur = cur + unit;
            steps += 1;
        }
    }
}

impl PixelBuffer {
    /// Replaces every cell of the box from `(x0, y0)` up to, but not including, `(x1, y1)`,
    /// or of its edge where the box is hollow. Cells outside the grid are passed over.
    pub(crate) fn paint_box(
        &mut self,
        x0: usize,
        y0: usize,
        x1: usize,
        y1: usize,
        hollow: bool,
        c: Color,
    )
        requires
            old(self)@.covers(),
        ensures
            final(self)@ == old(self)@.paint_box(
                x0 as nat,
                y0 as nat,
                x1 as nat,
                y1 as nat,
                hollow,
                c,
            ),
    {
        let mut y = y0;
        while y < y1
            invariant
                old(self)@.covers(),
                self.width == old(self).width,
                self.height == old(self).height,
                self.data@.len() == old(self).data@.len(),
                y0 <= y,
                forall|i: int|
                    0 <= i < self.data@.len() ==> #[trigger] self.data@[i] == Self::swept_cell(
                        old(self)@,
                        i,
                        x0 as nat,
                        y0 as nat,
                        x1 as nat,
                        y1 as nat,
                        hollow,
                        c,
                        y as nat,
                        x0 as nat,
                    ),
            decreases y1 - y,
        {
            let mut x = x0;
            while x < x1
                invariant
                    old(self)@.covers(),
                    self.width == old(self).width,
                    self.height == old(self).height,
                    self.data@.len() == old(self).data@.len(),
                    y0 <= y < y1,
                    x0 <= x,
                    forall|i: int|
                        0 <= i < self.data@.len() ==> #[trigger] self.data@[i] == Self::swept_cell(
                            old(self)@,
                            i,
                            x0 as nat,
                            y0 as nat,
                            x1 as nat,
                            y1 as nat,
                            hollow,
                            c,
                            y as nat,
                            x as nat,
                        ),
                decreases x1 - x,
            {
                if !hollow || x == x0 || x == x1 - 1 || y == y0 || y == y1 - 1 {
                    let ghost before = self.data@;
                    let r = self.put(x, y, c);
                    proof {
                        assert forall|i: int|
                            0 <= i < self.data@.len() implies #[trigger] self.data@[i]
                            == Self::swept_cell(
                            old(self)@,
                            i,
                            x0 as nat,
                            y0 as nat,
                            x1 as nat,
                            y1 as nat,
                            hollow,
                            c,
                            y as nat,
                            (x + 1) as nat,
                        ) by {
                            lemma_cell_coordinates(i, x as int, y as int, self.width as int);
                            assert(before[i] == Self::swept_cell(
                                old(self)@,
                                i,
                                x0 as nat,
                                y0 as nat,
                                x1 as nat,
                                y1 as nat,
                                hollow,
                                c,
                                y as nat,
                                x as nat,
                            ));
                            if r is Ok {
                                lemma_index_in_grid(
                                    x as int,
                                    y as int,
                                    self.width as int,
                                    self.height as int,
                                );
                            } else if self.width > 0 {
                                vstd::arithmetic::div_mod::lemma_mod_bound(i, self.width as int);
                            }
                        }
                    }
                }
                x += 1;
            }
            y += 1;
        }
        proof {
            assert(self.data@ =~= old(self)@.paint_box(
                x0 as nat,
                y0 as nat,
                x1 as nat,
                y1 as nat,
                hollow,
                c,
            ).cells);
        }
    }

    /// The cell at index `i` while a box is being painted row by row: replaced where it lies
    /// in the box and before `(col, row)` in the order of painting.
    spec fn swept_cell(
        before: Canvas,
        i: int,
        x0: nat,
        y0: nat,
        x1: nat,
        y1: nat,
        hollow: bool,
        c: Color,
        row: nat,
        col: nat,
    ) -> Color {
        let x = (i % before.width as int) as nat;
        let y = (i / before.width as int) as nat;
        let swept = y < row || (y == row && x < col);
        if before.width > 0 && y < before.height && swept && Canvas::in_box(
            x,
            y,
            x0,
            y0,
            x1,
            y1,
            hollow,
        ) {
            c
        } else {
            before.cells[i]
        }
    }
}

/// A colour written at a coordinate inside the grid is the colour read back there, and a
/// coordinate outside the grid is not written at.
pub proof fn lemma_put_then_get(canvas: Canvas, x: nat, y: nat, c: Color)
    requires
        canvas.covers(),
    ensures
        canvas.in_bounds(x, y) ==> canvas.put(x, y, c).get(x, y) == Some(c),
        canvas.in_bounds(x, y) ==> canvas.plot(x, y, c).get(x, y) == Some(c),
        !canvas.in_bounds(x, y) ==> canvas.plot(x, y, c) == canvas,
{
    if canvas.in_bounds(x, y) {
        lemma_index_in_grid(x as int, y as int, canvas.width as int, canvas.height as int);
    }
}

/// Nothing is read at a coordinate whose row-major index lies past the storage: on a
/// well-formed canvas, in every row past the last.
pub proof fn lemma_get_outside(canvas: Canvas, x: nat, y: nat)
    requires
        canvas.wf(),
        y >= canvas.height,
    ensures
        canvas.get(x, y).is_none(),
{
    assert(y * canvas.width + x >= canvas.width * canvas.height) by (nonlinear_arith)
        requires
            y >= canvas.height,
    ;
}

/// After a fill, the fill colour is read at every coordinate at which anything is read.
pub proof fn lemma_fill_then_get(canvas: Canvas, x: nat, y: nat, c: Color)
    ensures
        canvas.fill(c).get(x, y) == if canvas.get(x, y).is_some() {
            Some(c)
        } else {
            None
        },
        canvas.covers() && canvas.in_bounds(x, y) ==> canvas.fill(c).get(x, y) == Some(c),
{
    if canvas.covers() && canvas.in_bounds(x, y) {
        lemma_index_in_grid(x as int, y as int, canvas.width as int, canvas.height as int);
    }
}

/// A line keeps the shape of the canvas and changes no cell but to its colour.
pub proof fn lemma_line_paints_only<R: Scalar>(
    canvas: Canvas,
    cur: Vec2<R>,
    end: Vec2<isize>,
    c: Color,
    fuel: nat,
)
    requires
        canvas.covers(),
    ensures
        canvas.line_from(cur, end, c, fuel).width == canvas.width,
        canvas.line_from(cur, end, c, fuel).height == canvas.height,
        canvas.line_from(cur, end, c, fuel).cells.len() == canvas.cells.len(),
        forall|i: int|
            0 <= i < canvas.cells.len() ==> {
                ||| #[trigger] canvas.line_from(cur, end, c, fuel).cells[i] == canvas.cells[i]
                ||| canvas.line_from(cur, end, c, fuel).cells[i] == c
            },
    decreases fuel,
{
    if fuel > 0 && !Canvas::line_done(cur, end) {
        let cell = cur.cast_spec::<isize>();
        let plotted = canvas.plot_at(cell, c);
        if cell.x >= 0 && cell.y >= 0 && canvas.in_bounds(cell.x as nat, cell.y as nat) {
            lemma_index_in_grid(
                cell.x as int,
                cell.y as int,
                canvas.width as int,
                canvas.height as int,
            );
        }
        lemma_line_paints_only(plotted, Canvas::line_next(cur, end), end, c, (fuel - 1) as nat);
        assert forall|i: int| 0 <= i < canvas.cells.len() implies {
            ||| #[trigger] canvas.line_from(cur, end, c, fuel).cells[i] == canvas.cells[i]
            ||| canvas.line_from(cur, end, c, fuel).cells[i] == c
        } by {
            assert(plotted.cells[i] == canvas.cells[i] || plotted.cells[i] == c);
        }
    }
}

/// A line from a point to itself changes no cell.
pub proof fn lemma_line_to_itself<R: Scalar>(canvas: Canvas, point: Vec2<isize>, c: Color)
    ensures
        canvas.line::<R>(point, point, c) == canvas,
{
}

/// The index `i` is the row-major index of `(x, y)` exactly where `x` and `y` are its column
/// and its row.
pub proof fn lemma_cell_coordinates(i: int, x: int, y: int, w: int)
    requires
        0 <= i,
        0 <= x,
        0 <= y,
    ensures
        w > 0 && x < w ==> (i == y * w + x <==> i % w == x && i / w == y),
{
    if w > 0 && x < w {
        vstd::arithmetic::div_mod::lemma_fundamental_div_mod(i, w);
        if i == y * w + x {
            vstd::arithmetic::div_mod::lemma_fundamental_div_mod_converse(i, w, y, x);
        }
        if i % w == x && i / w == y {
            assert(w * (i / w) == y * w) by (nonlinear_arith)
                requires
                    i / w == y,
            ;
        }
    }
}

/// Inside a `w` by `h` grid the row-major index of `(x, y)` is below `w * h`.
pub proof fn lemma_index_in_grid(x: int, y: int, w: int, h: int)
    requires
        0 <= x < w,
        0 <= y < h,
    ensures
        0 <= y * w,
        0 <= y * w + x < w * h,
{
    assert(y * w + x < w * h) by (nonlinear_arith)
        requires
            0 <= x < w,
            0 <= y < h,
    {
        assert((y + 1) * w <= h * w);
    }
    assert(0 <= y * w) by (nonlinear_arith)
        requires
            0 <= y,
            0 <= w,
    ;
}

} // verus!

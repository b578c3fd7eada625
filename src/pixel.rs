use vstd::prelude::*;

verus! {

/// One RGBA color: four 8-bit channels.
#[derive(Clone, Copy, Debug, PartialEq, Eq, Structural)]
pub struct Color {
    pub r: u8,
    pub g: u8,
    pub b: u8,
    pub a: u8,
}

impl Color {
    pub fn new(r: u8, g: u8, b: u8, a: u8) -> (c: Color)
        ensures
            c == (Color { r, g, b, a }),
    {
        Color { r, g, b, a }
    }
}

/// A width × height raster of colors, stored row by row.
pub struct PixelGrid {
    width: u32,
    height: u32,
    pixels: Vec<Color>,
}

/// Position of `(x, y)` in the row-major storage of a grid of the given width.
pub open spec fn cell_index(width: int, x: int, y: int) -> int {
    y * width + x
}

pub proof fn lemma_cell_index_in_bounds(width: int, height: int, x: int, y: int)
    requires
        0 <= x < width,
        0 <= y < height,
    ensures
        0 <= y * width <= cell_index(width, x, y) < width * height,
{
    assert(0 <= y * width <= y * width + x < width * height) by (nonlinear_arith)
        requires
            0 <= x < width,
            0 <= y < height,
    ;
}

impl PixelGrid {
    pub closed spec fn spec_width(&self) -> int {
        self.width as int
    }

    pub closed spec fn spec_height(&self) -> int {
        self.height as int
    }

    /// The stored colors, row by row.
    pub closed spec fn cells(&self) -> Seq<Color> {
        self.pixels@
    }

    /// Every coordinate of the grid has exactly one stored color.
    pub open spec fn wf(&self) -> bool {
        &&& self.cells().len() == self.spec_width() * self.spec_height()
        &&& self.spec_width() * self.spec_height() <= usize::MAX
        &&& 0 <= self.spec_width() <= u32::MAX
        &&& 0 <= self.spec_height() <= u32::MAX
    }

    pub open spec fn in_bounds(&self, x: int, y: int) -> bool {
        0 <= x < self.spec_width() && 0 <= y < self.spec_height()
    }

    /// The color at `(x, y)`.
    pub open spec fn at(&self, x: int, y: int) -> Color {
        self.cells()[cell_index(self.spec_width(), x, y)]
    }

    /// A grid from colors listed row by row; `None` unless there is exactly one
    /// color per coordinate.
    pub fn from_pixels(width: u32, height: u32, pixels: Vec<Color>) -> (r: Option<PixelGrid>)
        ensures
            r is Some <==> pixels@.len() == width as int * height as int,
            r matches Some(g) ==> g.wf() && g.spec_width() == width && g.spec_height() == height
                && g.cells() == pixels@,
    {
        let w: u64 = width as u64;
        let h: u64 = height as u64;
        assert(w * h <= u32::MAX as int * u32::MAX as int) by (nonlinear_arith)
            requires
                w <= u32::MAX,
                h <= u32::MAX,
        ;
        let area: u64 = w * h;
        if pixels.len() as u64 == area {
            Some(PixelGrid { width, height, pixels })
        } else {
            None
        }
    }

    /// A grid of the given size with every coordinate set to `fill`.
    pub fn filled(width: u32, height: u32, fill: Color) -> (g: PixelGrid)
        requires
            width as int * height as int <= usize::MAX,
        ensures
            g.wf(),
            g.spec_width() == width,
            g.spec_height() == height,
            forall|x: int, y: int| g.in_bounds(x, y) ==> #[trigger] g.at(x, y) == fill,
    {
        let area: usize = (width as usize) * (height as usize);
        let mut pixels: Vec<Color> = Vec::with_capacity(area);
        while pixels.len() < area
            invariant
                pixels.len() <= area,
                forall|i: int| 0 <= i < pixels@.len() ==> pixels@[i] == fill,
            decreases area - pixels.len(),
        {
            pixels.push(fill);
        }
        let g = PixelGrid { width, height, pixels };
        assert forall|x: int, y: int| g.in_bounds(x, y) implies #[trigger] g.at(x, y) == fill by {
            lemma_cell_index_in_bounds(width as int, height as int, x, y);
        }
        g
    }

    pub fn width(&self) -> (w: u32)
        ensures
            w == self.spec_width(),
    {
        self.width
    }

    pub fn height(&self) -> (h: u32)
        ensures
            h == self.spec_height(),
    {
        self.height
    }

    fn index_of(&self, x: u32, y: u32) -> (i: usize)
        requires
            self.wf(),
            self.in_bounds(x as int, y as int),
        ensures
            i == cell_index(self.spec_width(), x as int, y as int),
            i < self.cells().len(),
    {
        let len = self.pixels.len();
        proof {
            lemma_cell_index_in_bounds(self.width as int, self.height as int, x as int, y as int);
            assert(cell_index(self.width as int, x as int, y as int) < len);
        }
        (y as usize) * (self.width as usize) + (x as usize)
    }

    /// The color at `(x, y)`.
    pub fn get_pixel(&self, x: u32, y: u32) -> (c: Color)
        requires
            self.wf(),
            self.in_bounds(x as int, y as int),
        ensures
            c == self.at(x as int, y as int),
    {
        let i = self.index_of(x, y);
        self.pixels[i]
    }

    /// Replaces the color at `(x, y)`, leaving every other coordinate as it was.
    pub fn put_pixel(&mut self, x: u32, y: u32, c: Color)
        requires
            old(self).wf(),
            old(self).in_bounds(x as int, y as int),
        ensures
            final(self).wf(),
            final(self).spec_width() == old(self).spec_width(),
            final(self).spec_height() == old(self).spec_height(),
            final(self).at(x as int, y as int) == c,
            forall|i: int, j: int|
                final(self).in_bounds(i, j) && !(i == x && j == y) ==> #[trigger] final(self).at(i, j)
                    == old(self).at(i, j),
    {
        let i = self.index_of(x, y);
        self.pixels.set(i, c);
        proof {
            assert forall|a: int, b: int|
                final(self).in_bounds(a, b) && !(a == x && b == y) implies #[trigger] final(self).at(a, b)
                    == old(self).at(a, b) by {
                lemma_cell_index_in_bounds(self.width as int, self.height as int, a, b);
                assert(cell_index(self.width as int, a, b) != cell_index(self.width as int, x as int, y as int))
                    by (nonlinear_arith)
                    requires
                        0 <= a < self.width,
                        0 <= x < self.width,
                        !(a == x && b == y),
                ;
            }
        }
    }
}

} // verus!

use vstd::prelude::*;

verus! {

/// One RGBA colour sample, eight bits per channel.
#[derive(Clone, Copy, Debug, PartialEq, Eq, Structural)]
pub struct Rgba {
    pub r: u8,
    pub g: u8,
    pub b: u8,
    pub a: u8,
}

/// A grid coordinate, `(x, y)`.
pub type Point = (usize, usize);

/// The failures that the carving engine reports.
#[derive(Clone, Copy, Debug, PartialEq, Eq, Structural)]
pub enum ErrorKind {
    /// The image has no pixel.
    EmptyImage,
    /// A resize would shrink a dimension below one pixel.
    DimensionExhausted,
    /// A path breaks the seam shape: one point per row, in bounds, 8-connected.
    InvalidSeam,
}

/// Rows of pixels, all of one non-zero length, and at least one row; both
/// dimensions fit in `usize`.
pub open spec fn is_rect(p: Seq<Seq<Rgba>>) -> bool {
    &&& 1 <= p.len() <= usize::MAX
    &&& 1 <= p[0].len() <= usize::MAX
    &&& forall|y: int| 0 <= y < p.len() ==> #[trigger] p[y].len() == p[0].len()
}

pub open spec fn width_of(p: Seq<Seq<Rgba>>) -> int {
    p[0].len() as int
}

pub open spec fn height_of(p: Seq<Seq<Rgba>>) -> int {
    p.len() as int
}

/// A seam of a `w` by `h` grid: one point per row, top to bottom, each in
/// bounds, and columns of adjacent rows at most one apart.
pub open spec fn is_seam(path: Seq<Point>, w: int, h: int) -> bool {
    &&& path.len() == h
    &&& forall|y: int| 0 <= y < h ==> (#[trigger] path[y]).1 == y && path[y].0 < w
    &&& forall|y: int|
        0 < y < h ==> (#[trigger] path[y]).0 - path[y - 1].0 <= 1 && path[y - 1].0 - path[y].0
            <= 1
}

/// Each row without the pixel that the seam holds in it.
pub open spec fn seam_removed(p: Seq<Seq<Rgba>>, path: Seq<Point>) -> Seq<Seq<Rgba>> {
    Seq::new(p.len(), |y: int| p[y].remove(path[y].0 as int))
}

pub open spec fn mean(a: u8, b: u8) -> u8 {
    ((a + b) / 2) as u8
}

/// Channel-wise mean of two pixels, rounded down.
pub open spec fn blend(a: Rgba, b: Rgba) -> Rgba {
    Rgba { r: mean(a.r, b.r), g: mean(a.g, b.g), b: mean(a.b, b.b), a: mean(a.a, b.a) }
}

/// The right neighbour of column `x`, or the pixel itself at the right border.
pub open spec fn right_or_self(row: Seq<Rgba>, x: int) -> Rgba {
    if x + 1 < row.len() {
        row[x + 1]
    } else {
        row[x]
    }
}

/// The pixel inserted after column `x` of a row.
pub open spec fn seam_pixel(row: Seq<Rgba>, x: int) -> Rgba {
    blend(row[x], right_or_self(row, x))
}

/// Each row with a blended pixel inserted right after the seam's pixel.
pub open spec fn seam_added(p: Seq<Seq<Rgba>>, path: Seq<Point>) -> Seq<Seq<Rgba>> {
    Seq::new(
        p.len(),
        |y: int| p[y].insert(path[y].0 + 1, seam_pixel(p[y], path[y].0 as int)),
    )
}

/// The grid turned a quarter clockwise: row `r`, column `c` of the result is
/// row `h - 1 - c`, column `r` of the input.
pub open spec fn rotated_cw(p: Seq<Seq<Rgba>>) -> Seq<Seq<Rgba>> {
    Seq::new(p[0].len(), |r: int| Seq::new(p.len(), |c: int| p[p.len() - 1 - c][r]))
}

/// The grid turned a quarter counter-clockwise: row `r`, column `c` of the
/// result is row `c`, column `w - 1 - r` of the input.
pub open spec fn rotated_ccw(p: Seq<Seq<Rgba>>) -> Seq<Seq<Rgba>> {
    Seq::new(p[0].len(), |r: int| Seq::new(p.len(), |c: int| p[c][p[0].len() - 1 - r]))
}

/// Turning a grid clockwise and then counter-clockwise gives it back.
pub proof fn lemma_rotation_round_trip(p: Seq<Seq<Rgba>>)
    requires
        is_rect(p),
    ensures
        is_rect(rotated_cw(p)),
        rotated_ccw(rotated_cw(p)) == p,
{
    let q = rotated_cw(p);
    assert(q[0].len() == p.len());
    let s = rotated_ccw(q);
    assert forall|r: int| 0 <= r < p.len() implies #[trigger] s[r] == p[r] by {
        assert(s[r] =~= p[r]);
    }
    assert(s =~= p);
}

/// A quarter turn either way keeps a rectangle and swaps its sides.
pub proof fn lemma_rotations_rect(p: Seq<Seq<Rgba>>)
    requires
        is_rect(p),
    ensures
        is_rect(rotated_cw(p)),
        is_rect(rotated_ccw(p)),
        width_of(rotated_cw(p)) == height_of(p),
        height_of(rotated_cw(p)) == width_of(p),
        width_of(rotated_ccw(p)) == height_of(p),
        height_of(rotated_ccw(p)) == width_of(p),
{
}

/// Removing a seam keeps a rectangle, one column narrower.
pub proof fn lemma_removed_rect(p: Seq<Seq<Rgba>>, path: Seq<Point>)
    requires
        is_rect(p),
        is_seam(path, width_of(p), height_of(p)),
        width_of(p) > 1,
    ensures
        is_rect(seam_removed(p, path)),
        width_of(seam_removed(p, path)) == width_of(p) - 1,
        height_of(seam_removed(p, path)) == height_of(p),
{
    let q = seam_removed(p, path);
    assert(path[0].1 == 0);
    assert forall|y: int| 0 <= y < q.len() implies #[trigger] q[y].len() == q[0].len() by {
        assert(path[y].1 == y);
    }
}

/// Doubling a seam keeps a rectangle, one column wider.
pub proof fn lemma_added_rect(p: Seq<Seq<Rgba>>, path: Seq<Point>)
    requires
        is_rect(p),
        width_of(p) < usize::MAX,
        is_seam(path, width_of(p), height_of(p)),
    ensures
        is_rect(seam_added(p, path)),
        width_of(seam_added(p, path)) == width_of(p) + 1,
        height_of(seam_added(p, path)) == height_of(p),
{
    let q = seam_added(p, path);
    assert(path[0].1 == 0);
    assert forall|y: int| 0 <= y < q.len() implies #[trigger] q[y].len() == q[0].len() by {
        assert(path[y].1 == y);
    }
}

/// Whether `path` is a seam of a `w` by `h` grid.
pub fn check_seam(path: &Vec<Point>, w: usize, h: usize) -> (r: bool)
    ensures
        r == is_seam(path@, w as int, h as int),
{
    if path.len() != h {
        return false;
    }
    let mut y: usize = 0;
    while y < h
        invariant
            path@.len() == h,
            y <= h,
            forall|i: int| 0 <= i < y ==> (#[trigger] path@[i]).1 == i && path@[i].0 < w,
            forall|i: int|
                0 < i < y ==> (#[trigger] path@[i]).0 - path@[i - 1].0 <= 1 && path@[i - 1].0
                    - path@[i].0 <= 1,
        decreases h - y,
    {
        let (x, py) = path[y];
        if py != y || x >= w {
            assert(path@[y as int].1 != y || path@[y as int].0 >= w);
            return false;
        }
        if y > 0 {
            let px = path[y - 1].0;
            if x > px + 1 || px > x + 1 {
                assert(path@[y as int].0 - path@[y - 1].0 > 1 || path@[y - 1].0 - path@[
                    y as int
                ].0 > 1);
                return false;
            }
        }
        y = y + 1;
    }
    true
}

/// A rectangular image held as rows of pixels.
pub struct Image {
    rows: Vec<Vec<Rgba>>,
}

impl View for Image {
    type V = Seq<Seq<Rgba>>;

    closed spec fn view(&self) -> Seq<Seq<Rgba>> {
        self.rows@.map_values(|r: Vec<Rgba>| r@)
    }
}

/// The row `src` without its element at `c`.
fn row_without(src: &Vec<Rgba>, c: usize) -> (r: Vec<Rgba>)
    requires
        c < src@.len(),
    ensures
        r@ == src@.remove(c as int),
{
    let mut out: Vec<Rgba> = Vec::new();
    let mut i: usize = 0;
    while i < src.len()
        invariant
            c < src@.len(),
            i <= src@.len(),
            i <= c ==> out@ == src@.subrange(0, i as int),
            i > c ==> out@ == src@.subrange(0, c as int) + src@.subrange(c + 1, i as int),
        decreases src@.len() - i,
    {
        if i != c {
            out.push(src[i]);
        }
        proof {
            if i < c {
                assert(out@ =~= src@.subrange(0, i + 1));
            } else if i == c {
                assert(out@ =~= src@.subrange(0, c as int) + src@.subrange(c + 1, i + 1));
            } else {
                assert(out@ =~= src@.subrange(0, c as int) + src@.subrange(c + 1, i + 1));
            }
        }
        i = i + 1;
    }
    assert(out@ =~= src@.remove(c as int));
    out
}

/// The row `src` with `v` inserted at `c + 1`.
fn row_with(src: &Vec<Rgba>, c: usize, v: Rgba) -> (r: Vec<Rgba>)
    requires
        c < src@.len(),
    ensures
        r@ == src@.insert(c + 1, v),
{
    let mut out: Vec<Rgba> = Vec::new();
    let mut i: usize = 0;
    while i < src.len()
        invariant
            c < src@.len(),
            i <= src@.len(),
            i <= c ==> out@ == src@.subrange(0, i as int),
            i > c ==> out@ == src@.subrange(0, c + 1).push(v) + src@.subrange(c + 1, i as int),
        decreases src@.len() - i,
    {
        out.push(src[i]);
        if i == c {
            out.push(v);
        }
        proof {
            if i < c {
                assert(out@ =~= src@.subrange(0, i + 1));
            } else {
                assert(out@ =~= src@.subrange(0, c + 1).push(v) + src@.subrange(c + 1, i + 1));
            }
        }
        i = i + 1;
    }
    assert(out@ =~= src@.insert(c + 1, v));
    out
}

fn mean_u8(a: u8, b: u8) -> (r: u8)
    ensures
        r == mean(a, b),
{
    ((a as u16 + b as u16) / 2) as u8
}

fn blend_exec(a: Rgba, b: Rgba) -> (r: Rgba)
    ensures
        r == blend(a, b),
{
    Rgba { r: mean_u8(a.r, b.r), g: mean_u8(a.g, b.g), b: mean_u8(a.b, b.b), a: mean_u8(a.a, b.a) }
}

impl Image {
    /// A rectangle of at least one pixel.
    pub open spec fn wf(&self) -> bool {
        is_rect(self@)
    }

    proof fn lemma_view(&self)
        ensures
            self@.len() == self.rows@.len(),
            forall|y: int| 0 <= y < self.rows@.len() ==> #[trigger] self@[y] == self.rows@[y]@,
    {
    }

    /// Every row is as long as the first; an image may have no row, or rows
    /// of no pixel.
    pub open spec fn well_shaped(&self) -> bool {
        forall|y: int| 0 <= y < self@.len() ==> #[trigger] self@[y].len() == self@[0].len()
    }

    /// An image from its rows, top to bottom.
    pub fn from_rows(rows: Vec<Vec<Rgba>>) -> (r: Image)
        requires
            forall|y: int| 0 <= y < rows@.len() ==> #[trigger] rows@[y]@.len() == rows@[0]@.len(),
        ensures
            r.well_shaped(),
            r@ == rows@.map_values(|v: Vec<Rgba>| v@),
    {
        let img = Image { rows };
        proof {
            img.lemma_view();
        }
        img
    }

    /// Whether the image has no pixel: no row, or rows of no pixel.
    pub fn is_empty(&self) -> (r: bool)
        requires
            self.well_shaped(),
        ensures
            r == (self@.len() == 0 || self@[0].len() == 0),
            !r ==> self.wf(),
    {
        proof {
            self.lemma_view();
        }
        self.rows.len() == 0 || self.rows[0].len() == 0
    }

    /// The rows of the image, top to bottom.
    pub fn into_rows(self) -> (r: Vec<Vec<Rgba>>)
        ensures
            r@.map_values(|v: Vec<Rgba>| v@) == self@,
    {
        self.rows
    }

    pub fn width(&self) -> (r: usize)
        requires
            self@.len() > 0,
        ensures
            r == width_of(self@),
    {
        proof {
            self.lemma_view();
        }
        self.rows[0].len()
    }

    pub fn height(&self) -> (r: usize)
        ensures
            r == height_of(self@),
    {
        proof {
            self.lemma_view();
        }
        self.rows.len()
    }

    /// The pixel at column `x` of row `y`.
    pub fn pixel(&self, x: usize, y: usize) -> (r: Rgba)
        requires
            self.wf(),
            x < width_of(self@),
            y < height_of(self@),
        ensures
            r == self@[y as int][x as int],
    {
        proof {
            self.lemma_view();
            assert(self@[y as int].len() == self@[0].len());
        }
        self.rows[y][x]
    }

    /// A copy of the image.
    pub fn duplicate(&self) -> (r: Image)
        ensures
            r@ == self@,
    {
        let mut rows: Vec<Vec<Rgba>> = Vec::new();
        let mut y: usize = 0;
        while y < self.rows.len()
            invariant
                y <= self.rows@.len(),
                rows@.len() == y,
                forall|i: int| 0 <= i < y ==> #[trigger] rows@[i]@ == self.rows@[i]@,
            decreases self.rows@.len() - y,
        {
            let src = &self.rows[y];
            let mut row: Vec<Rgba> = Vec::new();
            let mut x: usize = 0;
            while x < src.len()
                invariant
                    x <= src@.len(),
                    row@ == src@.subrange(0, x as int),
                decreases src@.len() - x,
            {
                row.push(src[x]);
                assert(row@ =~= src@.subrange(0, x + 1));
                x = x + 1;
            }
            assert(row@ =~= src@);
            rows.push(row);
            y = y + 1;
        }
        let r = Image { rows };
        assert(r@ =~= self@);
        r
    }

    /// Removes the seam's pixel from each row.
    pub fn remove_seam(&mut self, path: &Vec<Point>)
        requires
            old(self).wf(),
            is_seam(path@, width_of(old(self)@), height_of(old(self)@)),
            width_of(old(self)@) > 1,
        ensures
            final(self)@ == seam_removed(old(self)@, path@),
            final(self).wf(),
    {
        proof {
            self.lemma_view();
        }
        let ghost p = self@;
        let mut rows: Vec<Vec<Rgba>> = Vec::new();
        let mut y: usize = 0;
        while y < self.rows.len()
            invariant
                p == self@,
                is_rect(p),
                is_seam(path@, width_of(p), height_of(p)),
                y <= self.rows@.len(),
                self.rows@.len() == p.len(),
                forall|i: int| 0 <= i < p.len() ==> #[trigger] p[i] == self.rows@[i]@,
                rows@.len() == y,
                forall|i: int| 0 <= i < y ==> #[trigger] rows@[i]@ == seam_removed(p, path@)[i],
            decreases self.rows@.len() - y,
        {
            proof {
                assert(path@[y as int].1 == y);
                assert(p[y as int].len() == p[0].len());
            }
            let c = path[y].0;
            let row = row_without(&self.rows[y], c);
            rows.push(row);
            y = y + 1;
        }
        self.rows = rows;
        proof {
            lemma_removed_rect(p, path@);
            assert(self@ =~= seam_removed(p, path@));
        }
    }

    /// Inserts after the seam's pixel in each row the mean of that pixel and
    /// its right neighbour (or of the pixel and itself at the right border).
    pub fn add_seam(&mut self, path: &Vec<Point>)
        requires
            old(self).wf(),
            width_of(old(self)@) < usize::MAX,
            is_seam(path@, width_of(old(self)@), height_of(old(self)@)),
        ensures
            final(self)@ == seam_added(old(self)@, path@),
            final(self).wf(),
    {
        proof {
            self.lemma_view();
        }
        let ghost p = self@;
        let mut rows: Vec<Vec<Rgba>> = Vec::new();
        let mut y: usize = 0;
        while y < self.rows.len()
            invariant
                p == self@,
                is_rect(p),
                is_seam(path@, width_of(p), height_of(p)),
                y <= self.rows@.len(),
                self.rows@.len() == p.len(),
                forall|i: int| 0 <= i < p.len() ==> #[trigger] p[i] == self.rows@[i]@,
                rows@.len() == y,
                forall|i: int| 0 <= i < y ==> #[trigger] rows@[i]@ == seam_added(p, path@)[i],
            decreases self.rows@.len() - y,
        {
            proof {
                assert(path@[y as int].1 == y);
                assert(p[y as int].len() == p[0].len());
            }
            let c = path[y].0;
            let src = &self.rows[y];
            let right = if c < src.len() - 1 {
                src[c + 1]
            } else {
                src[c]
            };
            let v = blend_exec(src[c], right);
            let row = row_with(src, c, v);
            rows.push(row);
            y = y + 1;
        }
        self.rows = rows;
        proof {
            lemma_added_rect(p, path@);
            assert(self@ =~= seam_added(p, path@));
        }
    }

    /// Turns the image a quarter clockwise.
    pub fn rotate_clockwise(&mut self)
        requires
            old(self).wf(),
        ensures
            final(self)@ == rotated_cw(old(self)@),
            final(self).wf(),
    {
        proof {
            self.lemma_view();
        }
        let ghost p = self@;
        let h = self.rows.len();
        let w = self.rows[0].len();
        let mut rows: Vec<Vec<Rgba>> = Vec::new();
        let mut r: usize = 0;
        while r < w
            invariant
                p == self@,
                is_rect(p),
                h == p.len(),
                w == p[0].len(),
                self.rows@.len() == h,
                forall|i: int| 0 <= i < h ==> #[trigger] p[i] == self.rows@[i]@,
                r <= w,
                rows@.len() == r,
                forall|i: int| 0 <= i < r ==> #[trigger] rows@[i]@ == rotated_cw(p)[i],
            decreases w - r,
        {
            let mut row: Vec<Rgba> = Vec::new();
            let mut c: usize = 0;
            while c < h
                invariant
                    p == self@,
                    is_rect(p),
                    h == p.len(),
                    w == p[0].len(),
                    self.rows@.len() == h,
                    forall|i: int| 0 <= i < h ==> #[trigger] p[i] == self.rows@[i]@,
                    r < w,
                    c <= h,
                    row@.len() == c,
                    forall|j: int| 0 <= j < c ==> #[trigger] row@[j] == p[h - 1 - j][r as int],
                decreases h - c,
            {
                assert(p[h - 1 - c].len() == w);
                row.push(self.rows[h - 1 - c][r]);
                c = c + 1;
            }
            assert(row@ =~= rotated_cw(p)[r as int]);
            rows.push(row);
            r = r + 1;
        }
        self.rows = rows;
        proof {
            lemma_rotations_rect(p);
            assert(self@ =~= rotated_cw(p));
        }
    }

    /// Turns the image a quarter counter-clockwise.
    pub fn rotate_counterclockwise(&mut self)
        requires
            old(self).wf(),
        ensures
            final(self)@ == rotated_ccw(old(self)@),
            final(self).wf(),
    {
        proof {
            self.lemma_view();
        }
        let ghost p = self@;
        let h = self.rows.len();
        let w = self.rows[0].len();
        let mut rows: Vec<Vec<Rgba>> = Vec::new();
        let mut r: usize = 0;
        while r < w
            invariant
                p == self@,
                is_rect(p),
                h == p.len(),
                w == p[0].len(),
                self.rows@.len() == h,
                forall|i: int| 0 <= i < h ==> #[trigger] p[i] == self.rows@[i]@,
                r <= w,
                rows@.len() == r,
                forall|i: int| 0 <= i < r ==> #[trigger] rows@[i]@ == rotated_ccw(p)[i],
            decreases w - r,
        {
            let mut row: Vec<Rgba> = Vec::new();
            let mut c: usize = 0;
            while c < h
                invariant
                    p == self@,
                    is_rect(p),
                    h == p.len(),
                    w == p[0].len(),
                    self.rows@.len() == h,
                    forall|i: int| 0 <= i < h ==> #[trigger] p[i] == self.rows@[i]@,
                    r < w,
                    c <= h,
                    row@.len() == c,
                    forall|j: int| 0 <= j < c ==> #[trigger] row@[j] == p[j][w - 1 - r],
                decreases h - c,
            {
                assert(p[c as int].len() == w);
                row.push(self.rows[c][w - 1 - r]);
                c = c + 1;
            }
            assert(row@ =~= rotated_ccw(p)[r as int]);
            rows.push(row);
            r = r + 1;
        }
        self.rows = rows;
        proof {
            lemma_rotations_rect(p);
            assert(self@ =~= rotated_ccw(p));
        }
    }
}

} // verus!

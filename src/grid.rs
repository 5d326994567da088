use vstd::prelude::*;

use crate::raster::{
    ErrorKind, Image, Point, Rgba, check_seam, height_of, is_rect, is_seam, lemma_added_rect,
    lemma_removed_rect, seam_added, seam_removed, width_of,
};

verus! {

/// The largest energy of one pixel: four channels, two gradients of at most 255.
pub const MAX_ENERGY: u64 = 2040;

pub open spec fn abs_diff(a: u8, b: u8) -> nat {
    if a >= b {
        (a - b) as nat
    } else {
        (b - a) as nat
    }
}

/// Sum over the channels of the absolute difference of two pixels.
pub open spec fn color_diff(p: Rgba, q: Rgba) -> nat {
    abs_diff(p.r, q.r) + abs_diff(p.g, q.g) + abs_diff(p.b, q.b) + abs_diff(p.a, q.a)
}

/// Dual-gradient energy of the pixel at `(x, y)`: the difference of its left
/// and right neighbours plus that of its upper and lower neighbours, a
/// neighbour missing at the border counting as the pixel itself.
pub open spec fn energy_of(p: Seq<Seq<Rgba>>, x: int, y: int) -> nat {
    let here = p[y][x];
    let left = if x > 0 { p[y][x - 1] } else { here };
    let right = if x + 1 < p[y].len() { p[y][x + 1] } else { here };
    let up = if y > 0 { p[y - 1][x] } else { here };
    let down = if y + 1 < p.len() { p[y + 1][x] } else { here };
    color_diff(left, right) + color_diff(up, down)
}

pub open spec fn min3(a: nat, b: nat, c: nat) -> nat {
    let m = if a < b { a } else { b };
    if c < m { c } else { m }
}

/// Least total energy of a path from the top row down to `(x, y)` that moves
/// at most one column per row.
pub open spec fn path_energy_of(p: Seq<Seq<Rgba>>, x: int, y: int) -> nat
    decreases y,
{
    if y <= 0 {
        energy_of(p, x, 0)
    } else {
        let mid = path_energy_of(p, x, y - 1);
        let left = if x > 0 { path_energy_of(p, x - 1, y - 1) } else { mid };
        let right = if x + 1 < p[0].len() { path_energy_of(p, x + 1, y - 1) } else { mid };
        energy_of(p, x, y) + min3(left, mid, right)
    }
}

/// The column of row `y - 1` that a least path to `(x, y)` comes from:
/// straight above if that is least, else up-left, else up-right.
pub open spec fn pred_col(p: Seq<Seq<Rgba>>, x: int, y: int) -> int {
    let m = path_energy_of(p, x, y) - energy_of(p, x, y);
    if path_energy_of(p, x, y - 1) == m {
        x
    } else if x > 0 && path_energy_of(p, x - 1, y - 1) == m {
        x - 1
    } else {
        x + 1
    }
}

/// The first column among `0..k` of row `y` with the least path energy.
pub open spec fn min_col(p: Seq<Seq<Rgba>>, y: int, k: int) -> int
    decreases k,
{
    if k <= 1 {
        0
    } else {
        let m = min_col(p, y, k - 1);
        if path_energy_of(p, k - 1, y) < path_energy_of(p, m, y) {
            k - 1
        } else {
            m
        }
    }
}

/// The column of the least seam in row `y`: the first least column of the
/// bottom row, followed upward through `pred_col`.
pub open spec fn seam_col(p: Seq<Seq<Rgba>>, y: int) -> int
    decreases p.len() - y,
{
    if y >= p.len() - 1 {
        min_col(p, p.len() - 1, p[0].len() as int)
    } else {
        pred_col(p, seam_col(p, y + 1), y + 1)
    }
}

/// The least seam of the grid, top to bottom.
pub open spec fn seam_of(p: Seq<Seq<Rgba>>) -> Seq<Point> {
    Seq::new(p.len(), |y: int| (seam_col(p, y) as usize, y as usize))
}

/// Sum of the energies of the points of a path.
pub open spec fn path_cost(p: Seq<Seq<Rgba>>, path: Seq<Point>) -> nat
    decreases path.len(),
{
    if path.len() == 0 {
        0
    } else {
        path_cost(p, path.drop_last()) + energy_of(
            p,
            path.last().0 as int,
            path.last().1 as int,
        )
    }
}

/// Every energy is non-negative and at most `MAX_ENERGY`.
pub proof fn lemma_energy_bound(p: Seq<Seq<Rgba>>, x: int, y: int)
    ensures
        0 <= energy_of(p, x, y) <= MAX_ENERGY,
{
}

/// A path energy is at least the pixel's own energy and at most `MAX_ENERGY`
/// per row down to it.
pub proof fn lemma_path_energy_bound(p: Seq<Seq<Rgba>>, x: int, y: int)
    requires
        y >= 0,
    ensures
        energy_of(p, x, y) <= path_energy_of(p, x, y),
        path_energy_of(p, x, y) <= (y + 1) * MAX_ENERGY,
    decreases y,
{
    lemma_energy_bound(p, x, y);
    if y > 0 {
        lemma_path_energy_bound(p, x, y - 1);
        let mid = path_energy_of(p, x, y - 1);
        let left = if x > 0 { path_energy_of(p, x - 1, y - 1) } else { mid };
        let right = if x + 1 < p[0].len() { path_energy_of(p, x + 1, y - 1) } else { mid };
        assert(min3(left, mid, right) <= mid);
        assert(y * MAX_ENERGY + MAX_ENERGY == (y + 1) * MAX_ENERGY) by (nonlinear_arith);
    }
}

fn abs_diff_exec(a: u8, b: u8) -> (r: u64)
    ensures
        r == abs_diff(a, b),
{
    if a >= b {
        (a - b) as u64
    } else {
        (b - a) as u64
    }
}

fn color_diff_exec(p: Rgba, q: Rgba) -> (r: u64)
    ensures
        r == color_diff(p, q),
{
    abs_diff_exec(p.r, q.r) + abs_diff_exec(p.g, q.g) + abs_diff_exec(p.b, q.b) + abs_diff_exec(
        p.a,
        q.a,
    )
}

/// Energy of the pixel at `(x, y)` of `img`.
pub fn energy_at(img: &Image, x: usize, y: usize) -> (r: u64)
    requires
        img.wf(),
        x < width_of(img@),
        y < height_of(img@),
    ensures
        r == energy_of(img@, x as int, y as int),
{
    let p = Ghost(img@);
    let w = img.width();
    let h = img.height();
    proof {
        assert(p@[y as int].len() == w);
        if y > 0 {
            assert(p@[y - 1].len() == w);
        }
        if y + 1 < h {
            assert(p@[y + 1].len() == w);
        }
    }
    let here = img.pixel(x, y);
    let left = if x > 0 {
        img.pixel(x - 1, y)
    } else {
        here
    };
    let right = if x < w - 1 {
        img.pixel(x + 1, y)
    } else {
        here
    };
    let up = if y > 0 {
        img.pixel(x, y - 1)
    } else {
        here
    };
    let down = if y < h - 1 {
        img.pixel(x, y + 1)
    } else {
        here
    };
    assert(left == (if x > 0 { p@[y as int][x - 1] } else { p@[y as int][x as int] }));
    assert(right == (if x + 1 < p@[y as int].len() { p@[y as int][x + 1] } else { p@[y as int][x as int] }));
    assert(up == (if y > 0 { p@[y - 1][x as int] } else { p@[y as int][x as int] }));
    assert(down == (if y + 1 < p@.len() { p@[y + 1][x as int] } else { p@[y as int][x as int] }));
    proof {
        lemma_energy_bound(p@, x as int, y as int);
    }
    color_diff_exec(left, right) + color_diff_exec(up, down)
}

/// The column that a least path comes from is a neighbour in bounds, and its
/// path energy plus the pixel's energy is the pixel's path energy.
pub proof fn lemma_pred_col(p: Seq<Seq<Rgba>>, x: int, y: int)
    requires
        is_rect(p),
        0 <= x < width_of(p),
        1 <= y < height_of(p),
    ensures
        0 <= pred_col(p, x, y) < width_of(p),
        x - 1 <= pred_col(p, x, y) <= x + 1,
        path_energy_of(p, pred_col(p, x, y), y - 1) + energy_of(p, x, y) == path_energy_of(p, x, y),
{
}

/// `min_col` picks the first column of least path energy among `0..k`.
pub proof fn lemma_min_col(p: Seq<Seq<Rgba>>, y: int, k: int)
    requires
        1 <= k,
    ensures
        0 <= min_col(p, y, k) < k,
        forall|j: int| 0 <= j < k ==> path_energy_of(p, min_col(p, y, k), y) <= #[trigger] path_energy_of(p, j, y),
        forall|j: int| 0 <= j < min_col(p, y, k) ==> path_energy_of(p, min_col(p, y, k), y) < #[trigger] path_energy_of(p, j, y),
    decreases k,
{
    if k > 1 {
        lemma_min_col(p, y, k - 1);
    }
}

/// Every column of the least seam is in bounds.
pub proof fn lemma_seam_col(p: Seq<Seq<Rgba>>, y: int)
    requires
        is_rect(p),
        0 <= y < height_of(p),
    ensures
        0 <= seam_col(p, y) < width_of(p),
    decreases p.len() - y,
{
    if y >= p.len() - 1 {
        lemma_min_col(p, p.len() - 1, p[0].len() as int);
    } else {
        lemma_seam_col(p, y + 1);
        lemma_pred_col(p, seam_col(p, y + 1), y + 1);
    }
}

/// The least seam is a seam: one point per row, in bounds, 8-connected.
pub proof fn lemma_seam_is_seam(p: Seq<Seq<Rgba>>)
    requires
        is_rect(p),
    ensures
        is_seam(seam_of(p), width_of(p), height_of(p)),
{
    let s = seam_of(p);
    assert forall|y: int| 0 <= y < height_of(p) implies (#[trigger] s[y]).1 == y && s[y].0 < width_of(p) by {
        lemma_seam_col(p, y);
    }
    assert forall|y: int| 0 <= y < height_of(p) implies (#[trigger] s[y]).0 == seam_col(p, y) by {
        lemma_seam_col(p, y);
    }
    assert forall|y: int| 0 < y < height_of(p) implies (#[trigger] s[y]).0 - s[y - 1].0 <= 1 && s[y - 1].0 - s[y].0 <= 1 by {
        lemma_seam_col(p, y);
        lemma_seam_col(p, y - 1);
        lemma_pred_col(p, seam_col(p, y), y);
        assert(s[y].0 == seam_col(p, y));
        assert(s[y - 1].0 == seam_col(p, y - 1));
    }
}

/// The energy summed along the least seam down to row `n - 1` is the path
/// energy of the seam's point in that row.
pub proof fn lemma_seam_cost_prefix(p: Seq<Seq<Rgba>>, n: int)
    requires
        is_rect(p),
        1 <= n <= height_of(p),
    ensures
        path_cost(p, seam_of(p).subrange(0, n)) == path_energy_of(p, seam_col(p, n - 1), n - 1),
    decreases n,
{
    let s = seam_of(p).subrange(0, n);
    lemma_seam_col(p, n - 1);
    assert(s.last().0 == seam_col(p, n - 1));
    assert(s.last().1 == n - 1);
    if n == 1 {
        assert(s.drop_last() =~= Seq::<Point>::empty());
        assert(path_cost(p, s.drop_last()) == 0);
    } else {
        lemma_seam_cost_prefix(p, n - 1);
        assert(s.drop_last() =~= seam_of(p).subrange(0, n - 1));
        lemma_pred_col(p, seam_col(p, n - 1), n - 1);
    }
}

/// The least seam costs the least path energy of the bottom row, and no
/// column of the bottom row has a smaller one.
pub proof fn lemma_seam_cost_is_least(p: Seq<Seq<Rgba>>)
    requires
        is_rect(p),
    ensures
        path_cost(p, seam_of(p)) == path_energy_of(p, seam_col(p, p.len() - 1), p.len() - 1),
        forall|x: int|
            0 <= x < width_of(p) ==> path_energy_of(p, seam_col(p, p.len() - 1), p.len() - 1)
                <= #[trigger] path_energy_of(p, x, p.len() - 1),
{
    lemma_seam_cost_prefix(p, p.len() as int);
    assert(seam_of(p).subrange(0, p.len() as int) =~= seam_of(p));
    lemma_min_col(p, p.len() - 1, p[0].len() as int);
}

/// The path energy at the end of a seam's first `n` points is at most the
/// energy summed along them.
pub proof fn lemma_path_energy_at_most_cost(p: Seq<Seq<Rgba>>, q: Seq<Point>, n: int)
    requires
        is_rect(p),
        is_seam(q, width_of(p), height_of(p)),
        1 <= n <= height_of(p),
    ensures
        path_energy_of(p, q[n - 1].0 as int, n - 1) <= path_cost(p, q.subrange(0, n)),
    decreases n,
{
    let s = q.subrange(0, n);
    assert(s.last() == q[n - 1]);
    assert(q[n - 1].1 == n - 1);
    if n == 1 {
        assert(s.drop_last() =~= Seq::<Point>::empty());
        assert(path_cost(p, s.drop_last()) == 0);
    } else {
        lemma_path_energy_at_most_cost(p, q, n - 1);
        assert(s.drop_last() =~= q.subrange(0, n - 1));
        assert(q[n - 1].0 - q[n - 2].0 <= 1 && q[n - 2].0 - q[n - 1].0 <= 1);
        assert(q[n - 2].0 < width_of(p));
        assert(q[n - 1].0 < width_of(p));
    }
}

/// No seam of the grid costs less than the least seam.
pub proof fn lemma_least_seam_is_least(p: Seq<Seq<Rgba>>, q: Seq<Point>)
    requires
        is_rect(p),
        is_seam(q, width_of(p), height_of(p)),
    ensures
        path_cost(p, seam_of(p)) <= path_cost(p, q),
{
    let h = height_of(p);
    lemma_path_energy_at_most_cost(p, q, h);
    assert(q.subrange(0, h) =~= q);
    assert(q[h - 1].0 < width_of(p));
    lemma_seam_cost_is_least(p);
}

/// The energy table and the path-energy table of the pixels `p`.
pub open spec fn tables_fit(p: Seq<Seq<Rgba>>, e: Seq<Vec<u64>>, pe: Seq<Vec<u128>>) -> bool {
    &&& e.len() == p.len()
    &&& pe.len() == p.len()
    &&& forall|y: int| 0 <= y < p.len() ==> (#[trigger] e[y])@.len() == p[0].len()
    &&& forall|y: int| 0 <= y < p.len() ==> (#[trigger] pe[y])@.len() == p[0].len()
    &&& forall|y: int, x: int|
        0 <= y < p.len() && 0 <= x < p[0].len() ==> #[trigger] e[y]@[x] == energy_of(p, x, y)
    &&& forall|y: int, x: int|
        0 <= y < p.len() && 0 <= x < p[0].len() ==> #[trigger] pe[y]@[x] == path_energy_of(
            p,
            x,
            y,
        )
}

fn min3_exec(a: u128, b: u128, c: u128) -> (r: u128)
    ensures
        r == min3(a as nat, b as nat, c as nat),
{
    let m = if a < b {
        a
    } else {
        b
    };
    if c < m {
        c
    } else {
        m
    }
}

/// Computes the energy of every pixel, then the path energies row by row.
fn compute_tables(img: &Image) -> (r: (Vec<Vec<u64>>, Vec<Vec<u128>>))
    requires
        img.wf(),
    ensures
        tables_fit(img@, r.0@, r.1@),
{
    let ghost p = img@;
    let w = img.width();
    let h = img.height();
    let mut es: Vec<Vec<u64>> = Vec::new();
    let mut pes: Vec<Vec<u128>> = Vec::new();
    let mut y: usize = 0;
    while y < h
        invariant
            p == img@,
            img.wf(),
            w == width_of(p),
            h == height_of(p),
            y <= h,
            es@.len() == y,
            pes@.len() == y,
            forall|i: int| 0 <= i < y ==> (#[trigger] es@[i])@.len() == w,
            forall|i: int| 0 <= i < y ==> (#[trigger] pes@[i])@.len() == w,
            forall|i: int, x: int|
                0 <= i < y && 0 <= x < w ==> #[trigger] es@[i]@[x] == energy_of(p, x, i),
            forall|i: int, x: int|
                0 <= i < y && 0 <= x < w ==> #[trigger] pes@[i]@[x] == path_energy_of(p, x, i),
        decreases h - y,
    {
        let mut row_e: Vec<u64> = Vec::new();
        let mut row_pe: Vec<u128> = Vec::new();
        let mut x: usize = 0;
        while x < w
            invariant
                p == img@,
                img.wf(),
                w == width_of(p),
                h == height_of(p),
                y < h,
                es@.len() == y,
                pes@.len() == y,
                forall|i: int| 0 <= i < y ==> (#[trigger] pes@[i])@.len() == w,
                forall|i: int, x: int|
                    0 <= i < y && 0 <= x < w ==> #[trigger] pes@[i]@[x] == path_energy_of(p, x, i),
                x <= w,
                row_e@.len() == x,
                row_pe@.len() == x,
                forall|j: int| 0 <= j < x ==> #[trigger] row_e@[j] == energy_of(p, j, y as int),
                forall|j: int| 0 <= j < x ==> #[trigger] row_pe@[j] == path_energy_of(p, j, y as int),
            decreases w - x,
        {
            let e = energy_at(img, x, y);
            proof {
                lemma_path_energy_bound(p, x as int, y as int);
                assert((y + 1) * MAX_ENERGY <= 18446744073709551616 * 2040) by (nonlinear_arith)
                    requires
                        y + 1 <= 18446744073709551616,
                ;
            }
            let pe: u128 = if y == 0 {
                e as u128
            } else {
                let prev = &pes[y - 1];
                let mid = prev[x];
                let left = if x > 0 {
                    prev[x - 1]
                } else {
                    mid
                };
                let right = if x < w - 1 {
                    prev[x + 1]
                } else {
                    mid
                };
                e as u128 + min3_exec(left, mid, right)
            };
            row_e.push(e);
            row_pe.push(pe);
            x = x + 1;
        }
        es.push(row_e);
        pes.push(row_pe);
        y = y + 1;
    }
    (es, pes)
}

/// The grey level that shows an energy: the energy itself, clamped to 255.
pub open spec fn grey_of(e: nat) -> Rgba {
    let v = if e > 255 {
        255
    } else {
        e
    };
    Rgba { r: v as u8, g: v as u8, b: v as u8, a: 255 }
}

/// A grid of pixels together with the energy and the path energy of each.
pub struct EnergyGrid {
    pixels: Image,
    energy: Vec<Vec<u64>>,
    path_energy: Vec<Vec<u128>>,
}

impl View for EnergyGrid {
    type V = Seq<Seq<Rgba>>;

    closed spec fn view(&self) -> Seq<Seq<Rgba>> {
        self.pixels@
    }
}

impl EnergyGrid {
    /// The pixels form a rectangle of at least one pixel, and both tables
    /// hold what the pixels give.
    pub closed spec fn wf(&self) -> bool {
        &&& self.pixels.wf()
        &&& tables_fit(self.pixels@, self.energy@, self.path_energy@)
    }

    /// A well-formed value holds a rectangle of pixels.
    pub proof fn lemma_wf(&self)
        requires
            self.wf(),
        ensures
            is_rect(self@),
    {
    }

    /// A grid over a copy of the image's pixels, with every energy computed.
    /// Fails with `EmptyImage` where the image has no pixel.
    pub fn from_image(image: &Image) -> (r: Result<EnergyGrid, ErrorKind>)
        requires
            image.well_shaped(),
        ensures
            r.is_err() <==> (image@.len() == 0 || image@[0].len() == 0),
            r.is_err() ==> r == Err::<EnergyGrid, ErrorKind>(ErrorKind::EmptyImage),
            r.is_ok() ==> r.unwrap().wf() && r.unwrap()@ == image@,
    {
        if image.is_empty() {
            return Err(ErrorKind::EmptyImage);
        }
        let pixels = image.duplicate();
        let (energy, path_energy) = compute_tables(&pixels);
        Ok(EnergyGrid { pixels, energy, path_energy })
    }

    pub fn width(&self) -> (r: usize)
        requires
            self.wf(),
        ensures
            r == width_of(self@),
    {
        self.pixels.width()
    }

    pub fn height(&self) -> (r: usize)
        requires
            self.wf(),
        ensures
            r == height_of(self@),
    {
        self.pixels.height()
    }

    /// The energy of the pixel at `(x, y)`.
    pub fn energy(&self, x: usize, y: usize) -> (r: u64)
        requires
            self.wf(),
            x < width_of(self@),
            y < height_of(self@),
        ensures
            r == energy_of(self@, x as int, y as int),
            r <= MAX_ENERGY,
    {
        proof {
            lemma_energy_bound(self@, x as int, y as int);
        }
        self.energy[y][x]
    }

    /// The least total energy of a path from the top row to `(x, y)`.
    pub fn path_energy(&self, x: usize, y: usize) -> (r: u128)
        requires
            self.wf(),
            x < width_of(self@),
            y < height_of(self@),
        ensures
            r == path_energy_of(self@, x as int, y as int),
    {
        self.path_energy[y][x]
    }

    /// The pixels of the grid.
    pub fn pixels(&self) -> (r: &Image)
        requires
            self.wf(),
        ensures
            r.wf(),
            r@ == self@,
    {
        &self.pixels
    }

    /// The seam of least total energy: the first column of the bottom row
    /// with the least path energy, followed upward through the neighbour that
    /// gave each minimum (straight up first, then up-left, then up-right).
    pub fn find_path(&self) -> (r: Vec<Point>)
        requires
            self.wf(),
        ensures
            r@ == seam_of(self@),
            is_seam(r@, width_of(self@), height_of(self@)),
            path_cost(self@, r@) == path_energy_of(self@, seam_col(self@, self@.len() - 1), self@.len() - 1),
            forall|x: int|
                0 <= x < width_of(self@) ==> path_energy_of(self@, seam_col(self@, self@.len() - 1), self@.len() - 1)
                    <= #[trigger] path_energy_of(self@, x, self@.len() - 1),
            forall|q: Seq<Point>|
                is_seam(q, width_of(self@), height_of(self@)) ==> path_cost(self@, r@)
                    <= #[trigger] path_cost(self@, q),
    {
        let ghost p = self@;
        let w = self.width();
        let h = self.height();
        let last = &self.path_energy[h - 1];
        let mut best: usize = 0;
        let mut k: usize = 1;
        while k < w
            invariant
                self.wf(),
                p == self@,
                w == width_of(p),
                h == height_of(p),
                last@ == self.path_energy@[h - 1]@,
                1 <= k <= w,
                best == min_col(p, h - 1, k as int),
            decreases w - k,
        {
            proof {
                lemma_min_col(p, h - 1, k as int);
            }
            if last[k] < last[best] {
                best = k;
            }
            k = k + 1;
        }
        let mut cols: Vec<usize> = Vec::new();
        let mut x: usize = best;
        cols.push(x);
        let mut y: usize = h - 1;
        proof {
            lemma_seam_col(p, y as int);
        }
        while y > 0
            invariant
                self.wf(),
                p == self@,
                w == width_of(p),
                h == height_of(p),
                y < h,
                x == seam_col(p, y as int),
                x < w,
                cols@.len() == h - y,
                forall|i: int| 0 <= i < h - y ==> #[trigger] cols@[i] == seam_col(p, h - 1 - i),
            decreases y,
        {
            proof {
                lemma_pred_col(p, x as int, y as int);
                lemma_path_energy_bound(p, x as int, y as int);
            }
            let m = self.path_energy[y][x] - self.energy[y][x] as u128;
            let up = &self.path_energy[y - 1];
            let nx = if up[x] == m {
                x
            } else if x > 0 && up[x - 1] == m {
                x - 1
            } else {
                x + 1
            };
            x = nx;
            y = y - 1;
            cols.push(x);
        }
        proof {
            self.lemma_wf();
        }
        let mut path: Vec<Point> = Vec::new();
        let mut i: usize = 0;
        while i < h
            invariant
                p == self@,
                is_rect(p),
                h == height_of(p),
                cols@.len() == h,
                forall|j: int| 0 <= j < h ==> #[trigger] cols@[j] == seam_col(p, h - 1 - j),
                i <= h,
                path@.len() == i,
                forall|j: int| 0 <= j < i ==> #[trigger] path@[j] == seam_of(p)[j],
            decreases h - i,
        {
            proof {
                lemma_seam_col(p, i as int);
            }
            path.push((cols[h - 1 - i], i));
            i = i + 1;
        }
        proof {
            assert(path@ =~= seam_of(p));
            lemma_seam_is_seam(p);
            lemma_seam_cost_is_least(p);
            assert forall|q: Seq<Point>|
                is_seam(q, width_of(p), height_of(p)) implies path_cost(p, path@)
                <= #[trigger] path_cost(p, q) by {
                lemma_least_seam_is_least(p, q);
            }
        }
        path
    }

    /// Removes the seam's pixel from each row and recomputes the energies.
    /// Fails, leaving the grid as it was, with `DimensionExhausted` where the
    /// grid is one column wide, else with `InvalidSeam` where `path` is no seam.
    pub fn remove_seam(&mut self, path: &Vec<Point>) -> (r: Result<(), ErrorKind>)
        requires
            old(self).wf(),
        ensures
            final(self).wf(),
            width_of(old(self)@) <= 1 ==> r == Err::<(), ErrorKind>(ErrorKind::DimensionExhausted),
            width_of(old(self)@) > 1 && !is_seam(path@, width_of(old(self)@), height_of(old(self)@))
                ==> r == Err::<(), ErrorKind>(ErrorKind::InvalidSeam),
            r.is_ok() ==> final(self)@ == seam_removed(old(self)@, path@),
            r.is_err() ==> final(self)@ == old(self)@,
            r.is_ok() <==> width_of(old(self)@) > 1 && is_seam(path@, width_of(old(self)@), height_of(old(self)@)),
    {
        let w = self.width();
        let h = self.height();
        if w <= 1 {
            return Err(ErrorKind::DimensionExhausted);
        }
        if !check_seam(path, w, h) {
            return Err(ErrorKind::InvalidSeam);
        }
        self.pixels.remove_seam(path);
        self.recalculate_all();
        Ok(())
    }

    /// Inserts after the seam's pixel in each row the channel-wise mean of
    /// that pixel and its right neighbour (the pixel itself at the right
    /// border), and recomputes the energies. Fails, leaving the grid as it
    /// was, with `InvalidSeam` where `path` is no seam.
    pub fn add_seam(&mut self, path: &Vec<Point>) -> (r: Result<(), ErrorKind>)
        requires
            old(self).wf(),
            width_of(old(self)@) < usize::MAX,
        ensures
            final(self).wf(),
            r.is_ok() <==> is_seam(path@, width_of(old(self)@), height_of(old(self)@)),
            r.is_ok() ==> final(self)@ == seam_added(old(self)@, path@),
            r.is_err() ==> r == Err::<(), ErrorKind>(ErrorKind::InvalidSeam) && final(self)@ == old(self)@,
    {
        let w = self.width();
        let h = self.height();
        if !check_seam(path, w, h) {
            return Err(ErrorKind::InvalidSeam);
        }
        self.pixels.add_seam(path);
        self.recalculate_all();
        Ok(())
    }

    /// Turns the grid a quarter clockwise and recomputes the energies.
    pub fn rotate_clockwise(&mut self)
        requires
            old(self).wf(),
        ensures
            final(self).wf(),
            final(self)@ == crate::raster::rotated_cw(old(self)@),
    {
        self.pixels.rotate_clockwise();
        self.recalculate_all();
    }

    /// Turns the grid a quarter counter-clockwise and recomputes the energies.
    pub fn rotate_counterclockwise(&mut self)
        requires
            old(self).wf(),
        ensures
            final(self).wf(),
            final(self)@ == crate::raster::rotated_ccw(old(self)@),
    {
        self.pixels.rotate_counterclockwise();
        self.recalculate_all();
    }

    /// A picture of the energies, one opaque grey pixel per cell.
    pub fn energy_image(&self) -> (r: Image)
        requires
            self.wf(),
        ensures
            r.wf(),
            height_of(r@) == height_of(self@),
            width_of(r@) == width_of(self@),
            forall|y: int, x: int|
                0 <= y < height_of(self@) && 0 <= x < width_of(self@) ==> #[trigger] r@[y][x]
                    == grey_of(energy_of(self@, x, y)),
    {
        let ghost p = self@;
        let w = self.width();
        let h = self.height();
        let mut rows: Vec<Vec<Rgba>> = Vec::new();
        let mut y: usize = 0;
        while y < h
            invariant
                self.wf(),
                p == self@,
                w == width_of(p),
                h == height_of(p),
                y <= h,
                rows@.len() == y,
                forall|i: int| 0 <= i < y ==> (#[trigger] rows@[i])@.len() == w,
                forall|i: int, x: int|
                    0 <= i < y && 0 <= x < w ==> #[trigger] rows@[i]@[x] == grey_of(
                        energy_of(p, x, i),
                    ),
            decreases h - y,
        {
            let mut row: Vec<Rgba> = Vec::new();
            let mut x: usize = 0;
            while x < w
                invariant
                    self.wf(),
                    p == self@,
                    w == width_of(p),
                    h == height_of(p),
                    y < h,
                    x <= w,
                    row@.len() == x,
                    forall|j: int| 0 <= j < x ==> #[trigger] row@[j] == grey_of(
                        energy_of(p, j, y as int),
                    ),
                decreases w - x,
            {
                let e = self.energy(x, y);
                let v: u8 = if e > 255 {
                    255
                } else {
                    e as u8
                };
                row.push(Rgba { r: v, g: v, b: v, a: 255 });
                x = x + 1;
            }
            rows.push(row);
            y = y + 1;
        }
        let ghost rv = rows@;
        proof {
            assert(rv[0]@.len() == w);
        }
        let img = Image::from_rows(rows);
        proof {
            assert(img@ == rv.map_values(|v: Vec<Rgba>| v@));
            assert(img@[0].len() == w);
        }
        img
    }

    fn recalculate_all(&mut self)
        requires
            old(self).pixels.wf(),
        ensures
            final(self).wf(),
            final(self)@ == old(self)@,
    {
        let (energy, path_energy) = compute_tables(&self.pixels);
        self.energy = energy;
        self.path_energy = path_energy;
    }
}

} // verus!

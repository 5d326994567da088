use vstd::prelude::*;

use crate::grid::{EnergyGrid, lemma_seam_is_seam, seam_of};
use crate::raster::{
    ErrorKind, Image, Rgba, height_of, is_rect, lemma_added_rect, lemma_removed_rect,
    lemma_rotation_round_trip, lemma_rotations_rect, rotated_ccw, rotated_cw, seam_added,
    seam_removed, width_of,
};

verus! {

/// The pixels after `n` least seams were removed one after another, each
/// found on the pixels that the previous removal left.
pub open spec fn carved(p: Seq<Seq<Rgba>>, n: nat) -> Seq<Seq<Rgba>>
    decreases n,
{
    if n == 0 {
        p
    } else {
        let q = carved(p, (n - 1) as nat);
        seam_removed(q, seam_of(q))
    }
}

/// The pixels after `n` least seams were doubled one after another, each
/// found on the pixels that the previous insertion left.
pub open spec fn widened(p: Seq<Seq<Rgba>>, n: nat) -> Seq<Seq<Rgba>>
    decreases n,
{
    if n == 0 {
        p
    } else {
        let q = widened(p, (n - 1) as nat);
        seam_added(q, seam_of(q))
    }
}

/// The pixels after a horizontal resize by `d` columns.
pub open spec fn resized_horizontally(p: Seq<Seq<Rgba>>, d: int) -> Seq<Seq<Rgba>> {
    if d < 0 {
        carved(p, (-d) as nat)
    } else {
        widened(p, d as nat)
    }
}

/// The pixels after a vertical resize by `d` rows: turned clockwise, resized
/// horizontally, turned back.
pub open spec fn resized_vertically(p: Seq<Seq<Rgba>>, d: int) -> Seq<Seq<Rgba>> {
    rotated_ccw(resized_horizontally(rotated_cw(p), d))
}

/// Removing the least seam of a grid more than one column wide leaves a
/// rectangular grid one column narrower and just as high.
pub proof fn lemma_remove_least_seam(p: Seq<Seq<Rgba>>)
    requires
        is_rect(p),
        width_of(p) > 1,
    ensures
        is_rect(seam_removed(p, seam_of(p))),
        width_of(seam_removed(p, seam_of(p))) == width_of(p) - 1,
        height_of(seam_removed(p, seam_of(p))) == height_of(p),
{
    lemma_seam_is_seam(p);
    lemma_removed_rect(p, seam_of(p));
}

/// Doubling the least seam leaves a rectangular grid one column wider and
/// just as high.
pub proof fn lemma_add_least_seam(p: Seq<Seq<Rgba>>)
    requires
        is_rect(p),
        width_of(p) < usize::MAX,
    ensures
        is_rect(seam_added(p, seam_of(p))),
        width_of(seam_added(p, seam_of(p))) == width_of(p) + 1,
        height_of(seam_added(p, seam_of(p))) == height_of(p),
{
    lemma_seam_is_seam(p);
    lemma_added_rect(p, seam_of(p));
}

/// Removing `n` seams, fewer than the columns, leaves `n` fewer columns.
pub proof fn lemma_carved(p: Seq<Seq<Rgba>>, n: nat)
    requires
        is_rect(p),
        n < width_of(p),
    ensures
        is_rect(carved(p, n)),
        width_of(carved(p, n)) == width_of(p) - n,
        height_of(carved(p, n)) == height_of(p),
    decreases n,
{
    if n > 0 {
        lemma_carved(p, (n - 1) as nat);
        lemma_remove_least_seam(carved(p, (n - 1) as nat));
    }
}

/// Doubling `n` seams adds `n` columns.
pub proof fn lemma_widened(p: Seq<Seq<Rgba>>, n: nat)
    requires
        is_rect(p),
        width_of(p) + n <= usize::MAX,
    ensures
        is_rect(widened(p, n)),
        width_of(widened(p, n)) == width_of(p) + n,
        height_of(widened(p, n)) == height_of(p),
    decreases n,
{
    if n > 0 {
        lemma_widened(p, (n - 1) as nat);
        lemma_add_least_seam(widened(p, (n - 1) as nat));
    }
}

/// A horizontal resize by `d` that leaves at least one column gives a
/// rectangle `d` columns wider and just as high.
pub proof fn lemma_resized_horizontally(p: Seq<Seq<Rgba>>, d: int)
    requires
        is_rect(p),
        width_of(p) + d >= 1,
        width_of(p) + d <= usize::MAX,
    ensures
        is_rect(resized_horizontally(p, d)),
        width_of(resized_horizontally(p, d)) == width_of(p) + d,
        height_of(resized_horizontally(p, d)) == height_of(p),
{
    if d < 0 {
        lemma_carved(p, (-d) as nat);
    } else {
        lemma_widened(p, d as nat);
    }
}

/// Widening by `d` columns and then narrowing by `d` gives back the width.
pub proof fn lemma_resize_round_trip_width(p: Seq<Seq<Rgba>>, d: int)
    requires
        is_rect(p),
        d > 0,
        width_of(p) + d <= usize::MAX,
    ensures
        width_of(resized_horizontally(resized_horizontally(p, d), -d)) == width_of(p),
        height_of(resized_horizontally(resized_horizontally(p, d), -d)) == height_of(p),
{
    lemma_resized_horizontally(p, d);
    lemma_resized_horizontally(resized_horizontally(p, d), -d);
}

/// A vertical resize by `d` that leaves at least one row gives a rectangle
/// `d` rows higher and just as wide.
pub proof fn lemma_resized_vertically(p: Seq<Seq<Rgba>>, d: int)
    requires
        is_rect(p),
        height_of(p) + d >= 1,
        height_of(p) + d <= usize::MAX,
    ensures
        is_rect(resized_vertically(p, d)),
        height_of(resized_vertically(p, d)) == height_of(p) + d,
        width_of(resized_vertically(p, d)) == width_of(p),
{
    lemma_rotations_rect(p);
    lemma_resized_horizontally(rotated_cw(p), d);
    lemma_rotations_rect(resized_horizontally(rotated_cw(p), d));
}

/// An image and the energy grid of its pixels, resized together.
pub struct Carver {
    image: Image,
    grid: EnergyGrid,
}

impl View for Carver {
    type V = Seq<Seq<Rgba>>;

    closed spec fn view(&self) -> Seq<Seq<Rgba>> {
        self.image@
    }
}

impl Carver {
    /// The image and the grid hold the same rectangle of pixels.
    pub closed spec fn wf(&self) -> bool {
        &&& self.image.wf()
        &&& self.grid.wf()
        &&& self.image@ == self.grid@
    }

    /// A well-formed value holds a rectangle of pixels.
    pub proof fn lemma_wf(&self)
        requires
            self.wf(),
        ensures
            is_rect(self@),
    {
    }

    /// A carver over the image and its energy grid. Fails with
    /// `EmptyImage` where the image has no pixel.
    pub fn new(image: Image) -> (r: Result<Carver, ErrorKind>)
        requires
            image.well_shaped(),
        ensures
            r.is_err() <==> (image@.len() == 0 || image@[0].len() == 0),
            r.is_err() ==> r == Err::<Carver, ErrorKind>(ErrorKind::EmptyImage),
            r.is_ok() ==> r.unwrap().wf() && r.unwrap()@ == image@,
    {
        match EnergyGrid::from_image(&image) {
            Ok(grid) => {
                proof {
                    grid.lemma_wf();
                }
                Ok(Carver { image, grid })
            },
            Err(e) => Err(e),
        }
    }

    pub fn width(&self) -> (r: usize)
        requires
            self.wf(),
        ensures
            r == width_of(self@),
    {
        self.image.width()
    }

    pub fn height(&self) -> (r: usize)
        requires
            self.wf(),
        ensures
            r == height_of(self@),
    {
        self.image.height()
    }

    /// The image as resized so far.
    pub fn image(&self) -> (r: &Image)
        requires
            self.wf(),
        ensures
            r.wf(),
            r@ == self@,
    {
        &self.image
    }

    /// The energy grid of the image.
    pub fn grid(&self) -> (r: &EnergyGrid)
        requires
            self.wf(),
        ensures
            r.wf(),
            r@ == self@,
    {
        &self.grid
    }

    pub fn into_image(self) -> (r: Image)
        requires
            self.wf(),
        ensures
            r.wf(),
            r@ == self@,
    {
        self.image
    }

    fn remove_one_seam(&mut self)
        requires
            old(self).wf(),
            width_of(old(self)@) > 1,
        ensures
            final(self).wf(),
            final(self)@ == seam_removed(old(self)@, seam_of(old(self)@)),
    {
        let path = self.grid.find_path();
        let r = self.grid.remove_seam(&path);
        assert(r.is_ok());
        self.image.remove_seam(&path);
    }

    fn add_one_seam(&mut self)
        requires
            old(self).wf(),
            width_of(old(self)@) < usize::MAX,
        ensures
            final(self).wf(),
            final(self)@ == seam_added(old(self)@, seam_of(old(self)@)),
    {
        let path = self.grid.find_path();
        let r = self.grid.add_seam(&path);
        assert(r.is_ok());
        self.image.add_seam(&path);
    }

    /// Removes `-distance` least seams one after another where `distance` is
    /// negative, or doubles `distance` least seams one after another where it
    /// is positive. Fails with `DimensionExhausted`, before any seam and
    /// leaving the image as it was, where fewer than one column would remain.
    pub fn resize_horizontal(&mut self, distance: isize) -> (r: Result<(), ErrorKind>)
        requires
            old(self).wf(),
            width_of(old(self)@) + distance <= usize::MAX,
        ensures
            final(self).wf(),
            r.is_ok() <==> width_of(old(self)@) + distance >= 1,
            r.is_ok() ==> final(self)@ == resized_horizontally(old(self)@, distance as int),
            r.is_ok() ==> width_of(final(self)@) == width_of(old(self)@) + distance,
            r.is_ok() ==> height_of(final(self)@) == height_of(old(self)@),
            r.is_err() ==> r == Err::<(), ErrorKind>(ErrorKind::DimensionExhausted) && final(self)@
                == old(self)@,
    {
        let ghost p = self@;
        proof {
            self.lemma_wf();
        }
        let w = self.width();
        if distance < 0 {
            let n: usize = (0i128 - distance as i128) as usize;
            if w <= n {
                return Err(ErrorKind::DimensionExhausted);
            }
            let mut i: usize = 0;
            while i < n
                invariant
                    self.wf(),
                    is_rect(p),
                    n < width_of(p),
                    i <= n,
                    self@ == carved(p, i as nat),
                decreases n - i,
            {
                proof {
                    lemma_carved(p, i as nat);
                }
                self.remove_one_seam();
                i = i + 1;
            }
        } else {
            let n: usize = distance as usize;
            let mut i: usize = 0;
            while i < n
                invariant
                    self.wf(),
                    is_rect(p),
                    width_of(p) + n <= usize::MAX,
                    i <= n,
                    self@ == widened(p, i as nat),
                decreases n - i,
            {
                proof {
                    lemma_widened(p, i as nat);
                }
                self.add_one_seam();
                i = i + 1;
            }
        }
        proof {
            lemma_resized_horizontally(p, distance as int);
        }
        Ok(())
    }

    fn rotate_clockwise(&mut self)
        requires
            old(self).wf(),
        ensures
            final(self).wf(),
            final(self)@ == rotated_cw(old(self)@),
    {
        self.image.rotate_clockwise();
        self.grid.rotate_clockwise();
    }

    fn rotate_counterclockwise(&mut self)
        requires
            old(self).wf(),
        ensures
            final(self).wf(),
            final(self)@ == rotated_ccw(old(self)@),
    {
        self.image.rotate_counterclockwise();
        self.grid.rotate_counterclockwise();
    }

    /// Resizes by `distance` rows: turns the image clockwise, resizes it
    /// horizontally, and turns it back. Fails with `DimensionExhausted`,
    /// leaving the image as it was, where fewer than one row would remain.
    pub fn resize_vertical(&mut self, distance: isize) -> (r: Result<(), ErrorKind>)
        requires
            old(self).wf(),
            height_of(old(self)@) + distance <= usize::MAX,
        ensures
            final(self).wf(),
            r.is_ok() <==> height_of(old(self)@) + distance >= 1,
            r.is_ok() ==> final(self)@ == resized_vertically(old(self)@, distance as int),
            r.is_ok() ==> height_of(final(self)@) == height_of(old(self)@) + distance,
            r.is_ok() ==> width_of(final(self)@) == width_of(old(self)@),
            r.is_err() ==> r == Err::<(), ErrorKind>(ErrorKind::DimensionExhausted) && final(self)@
                == old(self)@,
    {
        let ghost p = self@;
        proof {
            self.lemma_wf();
            lemma_rotations_rect(p);
            lemma_rotation_round_trip(p);
        }
        self.rotate_clockwise();
        let r = self.resize_horizontal(distance);
        self.rotate_counterclockwise();
        proof {
            if r.is_ok() {
                lemma_resized_vertically(p, distance as int);
            }
        }
        r
    }
}

} // verus!

//! The output raster, filled from per-pixel iteration counts through a palette.
//! Pixels are stored row by row: pixel `(x, y)` sits at index `y * width + x`.
use vstd::prelude::*;
use vstd::arithmetic::div_mod::*;
use vstd::arithmetic::mul::*;
use crate::color::RGB;
use crate::escape::{escape_time, lemma_escape_time_bounded};
use crate::palette::{lemma_palette_shape, linear_palette};

verus! {

/// Why a raster could not be filled.
#[derive(Debug, Clone, Copy, PartialEq, Eq, Structural)]
pub enum RenderError {
    /// The width or the height is zero.
    InvalidViewport,
    /// The number of iteration counts is not `width * height`.
    SizeMismatch,
    /// An iteration count lies outside `[1, palette length]`.
    IterationOutOfRange,
}

/// The colour of iteration count `n`: palette slot `n - 1`.
pub open spec fn color_of_count(palette: Seq<RGB>, n: u32) -> RGB {
    palette[n - 1]
}

/// Every count lies in `[1, palette length]`.
pub open spec fn counts_in_range(counts: Seq<u32>, palette: Seq<RGB>) -> bool {
    forall|i: int| 0 <= i < counts.len() ==> 1 <= #[trigger] counts[i] <= palette.len()
}

/// The colours of all the counts, in order.
pub open spec fn colorize(counts: Seq<u32>, palette: Seq<RGB>) -> Seq<RGB> {
    Seq::new(counts.len(), |i: int| color_of_count(palette, counts[i]))
}

/// `cells` with the run starting at `start` painted from `chunk`.
pub open spec fn paint(cells: Seq<RGB>, start: int, chunk: Seq<u32>, palette: Seq<RGB>) -> Seq<RGB> {
    Seq::new(
        cells.len(),
        |i: int|
            if start <= i < start + chunk.len() {
                color_of_count(palette, chunk[i - start])
            } else {
                cells[i]
            },
    )
}

/// `cells` painted from `counts` over each range `[s, e)` of `ranges` in turn.
pub open spec fn paint_ranges(
    cells: Seq<RGB>,
    ranges: Seq<(int, int)>,
    counts: Seq<u32>,
    palette: Seq<RGB>,
) -> Seq<RGB>
    decreases ranges.len(),
{
    if ranges.len() == 0 {
        cells
    } else {
        let (s, e) = ranges.last();
        paint(paint_ranges(cells, ranges.drop_last(), counts, palette), s, counts.subrange(s, e), palette)
    }
}

/// Whether index `i` lies in one of the ranges.
pub open spec fn covered(ranges: Seq<(int, int)>, i: int) -> bool {
    exists|j: int| 0 <= j < ranges.len() && #[trigger] ranges[j].0 <= i < ranges[j].1
}

/// Whether each range lies within `[0, len)`.
pub open spec fn ranges_within(ranges: Seq<(int, int)>, len: int) -> bool {
    forall|j: int| 0 <= j < ranges.len() ==> 0 <= #[trigger] ranges[j].0 <= ranges[j].1 <= len
}

proof fn lemma_paint_ranges_pointwise(
    cells: Seq<RGB>,
    ranges: Seq<(int, int)>,
    counts: Seq<u32>,
    palette: Seq<RGB>,
)
    requires
        cells.len() == counts.len(),
        ranges_within(ranges, counts.len() as int),
    ensures
        paint_ranges(cells, ranges, counts, palette).len() == cells.len(),
        forall|i: int|
            0 <= i < cells.len() ==> #[trigger] paint_ranges(cells, ranges, counts, palette)[i]
                == if covered(ranges, i) {
                color_of_count(palette, counts[i])
            } else {
                cells[i]
            },
    decreases ranges.len(),
{
    if ranges.len() > 0 {
        let prefix = ranges.drop_last();
        assert(ranges_within(prefix, counts.len() as int)) by {
            assert forall|j: int| 0 <= j < prefix.len() implies 0 <= #[trigger] prefix[j].0
                <= prefix[j].1 <= counts.len() by {
                assert(prefix[j] == ranges[j]);
            }
        }
        lemma_paint_ranges_pointwise(cells, prefix, counts, palette);
        let (s, e) = ranges.last();
        assert(ranges[ranges.len() - 1] == ranges.last());
        assert forall|i: int| 0 <= i < cells.len() implies #[trigger] paint_ranges(
            cells,
            ranges,
            counts,
            palette,
        )[i] == if covered(ranges, i) {
            color_of_count(palette, counts[i])
        } else {
            cells[i]
        } by {
            if s <= i < e {
                assert(covered(ranges, i)) by {
                    assert(ranges[ranges.len() - 1].0 <= i < ranges[ranges.len() - 1].1);
                }
            } else {
                if covered(ranges, i) {
                    let j = choose|j: int| 0 <= j < ranges.len() && #[trigger] ranges[j].0 <= i < ranges[j].1;
                    assert(j < ranges.len() - 1);
                    assert(prefix[j] == ranges[j]);
                    assert(covered(prefix, i));
                } else {
                    if covered(prefix, i) {
                        let j = choose|j: int| 0 <= j < prefix.len() && #[trigger] prefix[j].0 <= i < prefix[j].1;
                        assert(prefix[j] == ranges[j]);
                    }
                }
            }
        }
    }
}

/// Painting a raster over ranges that together cover it, in any order and with
/// any overlaps, gives the same cells as colouring every count at once,
/// whatever the cells held before.
pub proof fn lemma_any_partition_same_raster(
    cells: Seq<RGB>,
    ranges: Seq<(int, int)>,
    counts: Seq<u32>,
    palette: Seq<RGB>,
)
    requires
        cells.len() == counts.len(),
        ranges_within(ranges, counts.len() as int),
        forall|i: int| 0 <= i < counts.len() ==> covered(ranges, i),
    ensures
        paint_ranges(cells, ranges, counts, palette) == colorize(counts, palette),
{
    lemma_paint_ranges_pointwise(cells, ranges, counts, palette);
    assert(paint_ranges(cells, ranges, counts, palette) =~= colorize(counts, palette));
}

/// The colour for iteration count `n`, read from palette slot `n - 1`.
pub fn color_for(palette: &Vec<RGB>, n: u32) -> (c: RGB)
    requires
        1 <= n <= palette@.len(),
    ensures
        c == color_of_count(palette@, n),
{
    palette[(n - 1) as usize]
}

/// The count reported for any orbit under a cap of at least four names a slot
/// of the palette built with that cap: slot `count - 1` is never out of bounds.
pub proof fn lemma_count_indexes_palette(
    c1: RGB,
    c2: RGB,
    c3: RGB,
    c4: RGB,
    cap: nat,
    escaped: Seq<bool>,
)
    requires
        cap >= 4,
    ensures
        0 <= escape_time(escaped, cap) - 1 < linear_palette(c1, c2, c3, c4, cap).len(),
{
    lemma_escape_time_bounded(escaped, cap);
    lemma_palette_shape(c1, c2, c3, c4, cap);
}

/// The pixel `(x, y)` stored at flat index `index` of a raster `width` wide.
pub fn pixel_of(index: usize, width: u32) -> (p: (u32, u32))
    requires
        width > 0,
        (index as int) / (width as int) <= u32::MAX,
    ensures
        p.0 == (index as int) % (width as int),
        p.1 == (index as int) / (width as int),
        p.1 * width + p.0 == index,
{
    proof {
        lemma_fundamental_div_mod(index as int, width as int);
        lemma_mul_is_commutative(width as int, index as int / width as int);
    }
    ((index % (width as usize)) as u32, (index / (width as usize)) as u32)
}

/// The bounds `[start, end)` of part `k` of `parts` contiguous parts of
/// `total` cells, as even as integer division allows.
pub fn chunk_bounds(total: usize, parts: usize, k: usize) -> (b: (usize, usize))
    requires
        0 < parts,
        k < parts,
        total * parts <= usize::MAX,
    ensures
        b.0 == chunk_start(total as nat, parts as nat, k as nat),
        b.1 == chunk_start(total as nat, parts as nat, (k + 1) as nat),
        b.0 <= b.1 <= total,
{
    proof {
        lemma_mul_inequality(k as int, parts as int, total as int);
        lemma_mul_inequality((k + 1) as int, parts as int, total as int);
        lemma_mul_inequality(k as int, (k + 1) as int, total as int);
        lemma_mul_is_commutative(parts as int, total as int);
        lemma_div_is_ordered(k * total, (k + 1) * total, parts as int);
        lemma_div_is_ordered((k + 1) * total, total * parts, parts as int);
        lemma_div_multiples_vanish(total as int, parts as int);
    }
    (k * total / parts, (k + 1) * total / parts)
}

/// Where part `k` of `parts` contiguous parts of `total` cells starts.
pub open spec fn chunk_start(total: nat, parts: nat, k: nat) -> int {
    (k * total) as int / parts as int
}

/// The ranges `[chunk_start(k), chunk_start(k + 1))` of all the parts.
pub open spec fn chunk_ranges(total: nat, parts: nat) -> Seq<(int, int)> {
    Seq::new(parts, |k: int| (chunk_start(total, parts, k as nat), chunk_start(total, parts, (k + 1) as nat)))
}

proof fn lemma_chunk_start_ordered(total: nat, parts: nat, k: nat)
    requires
        0 < parts,
        k < parts,
    ensures
        0 <= chunk_start(total, parts, k) <= chunk_start(total, parts, k + 1) <= total,
{
    lemma_mul_inequality(k as int, (k + 1) as int, total as int);
    lemma_mul_inequality((k + 1) as int, parts as int, total as int);
    lemma_div_is_ordered((k * total) as int, ((k + 1) * total) as int, parts as int);
    lemma_div_is_ordered(((k + 1) * total) as int, (parts * total) as int, parts as int);
    lemma_mul_is_commutative(parts as int, total as int);
    lemma_div_multiples_vanish(total as int, parts as int);
    lemma_div_pos_is_pos((k * total) as int, parts as int);
}

proof fn lemma_chunk_found(total: nat, parts: nat, k: nat, i: int)
    requires
        0 < parts,
        k < parts,
        chunk_start(total, parts, k) <= i < total,
    ensures
        exists|j: nat| k <= j < parts && chunk_start(total, parts, j) <= i < #[trigger] chunk_start(total, parts, j + 1),
    decreases parts - k,
{
    if i < chunk_start(total, parts, k + 1) {
        assert(chunk_start(total, parts, k) <= i < chunk_start(total, parts, k + 1));
    } else if k + 1 < parts {
        lemma_chunk_found(total, parts, k + 1, i);
    } else {
        lemma_mul_is_commutative(parts as int, total as int);
        lemma_div_multiples_vanish(total as int, parts as int);
    }
}

/// The parts of `chunk_bounds` lie within the `total` cells and between them
/// cover every cell, so painting them in any order fills the whole raster.
pub proof fn lemma_chunks_cover(total: nat, parts: nat)
    requires
        0 < parts,
    ensures
        ranges_within(chunk_ranges(total, parts), total as int),
        forall|i: int| 0 <= i < total ==> covered(chunk_ranges(total, parts), i),
{
    let ranges = chunk_ranges(total, parts);
    assert forall|k: int| 0 <= k < ranges.len() implies 0 <= #[trigger] ranges[k].0 <= ranges[k].1 <= total by {
        lemma_chunk_start_ordered(total, parts, k as nat);
    }
    assert forall|i: int| 0 <= i < total implies covered(ranges, i) by {
        assert(chunk_start(total, parts, 0) == 0);
        lemma_chunk_found(total, parts, 0, i);
        let j = choose|j: nat| 0 <= j < parts && chunk_start(total, parts, j) <= i < #[trigger] chunk_start(total, parts, j + 1);
        assert(ranges[j as int].0 <= i < ranges[j as int].1);
    }
}

/// Painting the parts of `chunk_bounds`, for any number of parts, gives the
/// raster of colouring every count at once, whatever the cells held before.
pub proof fn lemma_chunked_paint_deterministic(
    cells: Seq<RGB>,
    parts: nat,
    counts: Seq<u32>,
    palette: Seq<RGB>,
)
    requires
        0 < parts,
        cells.len() == counts.len(),
    ensures
        paint_ranges(cells, chunk_ranges(counts.len(), parts), counts, palette) == colorize(
            counts,
            palette,
        ),
{
    lemma_chunks_cover(counts.len(), parts);
    lemma_any_partition_same_raster(cells, chunk_ranges(counts.len(), parts), counts, palette);
}

/// A `width` by `height` grid of colours.
pub struct Raster {
    width: u32,
    height: u32,
    cells: Vec<RGB>,
}

impl Raster {
    pub closed spec fn spec_width(&self) -> nat {
        self.width as nat
    }

    pub closed spec fn spec_height(&self) -> nat {
        self.height as nat
    }

    /// The cells, row by row.
    pub closed spec fn view_cells(&self) -> Seq<RGB> {
        self.cells@
    }

    pub open spec fn wf(&self) -> bool {
        &&& self.spec_width() > 0
        &&& self.spec_height() > 0
        &&& self.view_cells().len() == self.spec_width() * self.spec_height()
    }

    /// A raster of `width * height` cells, all `fill`.
    pub fn new(width: u32, height: u32, fill: RGB) -> (res: Result<Raster, RenderError>)
        ensures
            (width == 0 || height == 0 || width as int * height as int > usize::MAX) <==> res is Err,
            res is Err ==> res == Err::<Raster, RenderError>(RenderError::InvalidViewport),
            res is Ok ==> res->Ok_0.wf() && res->Ok_0.spec_width() == width
                && res->Ok_0.spec_height() == height
                && res->Ok_0.view_cells() == Seq::new((width as int * height as int) as nat, |i: int| fill),
    {
        if width == 0 || height == 0 {
            return Err(RenderError::InvalidViewport);
        }
        assert((width as u64) * (height as u64) <= 0xffff_ffffu64 * 0xffff_ffffu64) by (nonlinear_arith)
            requires
                width <= 0xffff_ffffu64,
                height <= 0xffff_ffffu64,
        ;
        let total = (width as u64) * (height as u64);
        if total > usize::MAX as u64 {
            return Err(RenderError::InvalidViewport);
        }
        let total = total as usize;
        let mut cells: Vec<RGB> = Vec::new();
        while cells.len() < total
            invariant
                cells@.len() <= total,
                forall|i: int| 0 <= i < cells@.len() ==> #[trigger] cells@[i] == fill,
            decreases total - cells@.len(),
        {
            cells.push(fill);
        }
        assert(cells@ =~= Seq::new((width as int * height as int) as nat, |i: int| fill));
        Ok(Raster { width, height, cells })
    }

    pub fn width(&self) -> (w: u32)
        ensures
            w == self.spec_width(),
    {
        self.width
    }

    pub fn height(&self) -> (h: u32)
        ensures
            h == self.spec_height(),
    {
        self.height
    }

    /// The cells, row by row.
    pub fn cells(&self) -> (c: &Vec<RGB>)
        ensures
            c@ == self.view_cells(),
    {
        &self.cells
    }

    /// The colour of pixel `(x, y)`.
    pub fn get(&self, x: u32, y: u32) -> (c: RGB)
        requires
            self.wf(),
            x < self.spec_width(),
            y < self.spec_height(),
        ensures
            c == self.view_cells()[y * self.spec_width() + x],
    {
        let len = self.cells.len();
        proof {
            let (w, h, yi, xi) = (self.width as int, self.height as int, y as int, x as int);
            assert(yi * w + xi < w * h) by (nonlinear_arith)
                requires
                    0 <= yi < h,
                    0 <= xi < w,
            ;
        }
        self.cells[(y as usize) * (self.width as usize) + (x as usize)]
    }

    /// Paints the cells from `start` on with the colours of `chunk`'s counts;
    /// the other cells keep their colour.
    pub fn paint_chunk(&mut self, start: usize, chunk: &Vec<u32>, palette: &Vec<RGB>)
        requires
            start + chunk@.len() <= old(self).view_cells().len(),
            counts_in_range(chunk@, palette@),
        ensures
            final(self).spec_width() == old(self).spec_width(),
            final(self).spec_height() == old(self).spec_height(),
            final(self).view_cells() == paint(old(self).view_cells(), start as int, chunk@, palette@),
    {
        let ghost before = self.cells@;
        let len = self.cells.len();
        let mut i: usize = 0;
        while i < chunk.len()
            invariant
                start + chunk@.len() <= before.len(),
                before.len() == len,
                counts_in_range(chunk@, palette@),
                i <= chunk@.len(),
                self.cells@.len() == before.len(),
                self.width == old(self).width,
                self.height == old(self).height,
                forall|j: int|
                    0 <= j < before.len() ==> #[trigger] self.cells@[j] == if start <= j < start + i {
                        color_of_count(palette@, chunk@[j - start])
                    } else {
                        before[j]
                    },
            decreases chunk@.len() - i,
        {
            let c = color_for(palette, chunk[i]);
            self.cells.set(start + i, c);
            i = i + 1;
        }
        assert(self.cells@ =~= paint(before, start as int, chunk@, palette@));
    }
}

/// Colours a `width` by `height` raster from its iteration counts, given row
/// by row, through the palette: each cell gets palette slot `count - 1`.
pub fn render_from_iterations(width: u32, height: u32, counts: &Vec<u32>, palette: &Vec<RGB>) -> (res:
    Result<Raster, RenderError>)
    ensures
        (width == 0 || height == 0) ==> res == Err::<Raster, RenderError>(
            RenderError::InvalidViewport,
        ),
        (width > 0 && height > 0 && counts@.len() != width * height) ==> res == Err::<
            Raster,
            RenderError,
        >(RenderError::SizeMismatch),
        (width > 0 && height > 0 && counts@.len() == width * height && !counts_in_range(
            counts@,
            palette@,
        )) ==> res == Err::<Raster, RenderError>(RenderError::IterationOutOfRange),
        (width > 0 && height > 0 && counts@.len() == width * height && counts_in_range(
            counts@,
            palette@,
        )) ==> res is Ok,
        res is Ok ==> res->Ok_0.wf() && res->Ok_0.spec_width() == width
            && res->Ok_0.spec_height() == height
            && res->Ok_0.view_cells() == colorize(counts@, palette@),
{
    if width == 0 || height == 0 {
        return Err(RenderError::InvalidViewport);
    }
    if (counts.len() as u64) / (width as u64) != height as u64 || (counts.len() as u64) % (width as u64) != 0 {
        proof {
            lemma_fundamental_div_mod(counts@.len() as int, width as int);
            if counts@.len() == width * height {
                lemma_div_multiples_vanish(height as int, width as int);
                lemma_mod_multiples_basic(height as int, width as int);
            }
        }
        return Err(RenderError::SizeMismatch);
    }
    proof {
        lemma_fundamental_div_mod(counts@.len() as int, width as int);
        lemma_mul_is_commutative(width as int, height as int);
    }
    let mut i: usize = 0;
    while i < counts.len()
        invariant
            width > 0 && height > 0,
            counts@.len() == width * height,
            i <= counts@.len(),
            forall|j: int| 0 <= j < i ==> 1 <= #[trigger] counts@[j] <= palette@.len(),
        decreases counts@.len() - i,
    {
        if counts[i] < 1 || counts[i] as usize > palette.len() {
            return Err(RenderError::IterationOutOfRange);
        }
        i = i + 1;
    }
    let mut raster = match Raster::new(width, height, RGB { r: 0, g: 0, b: 0 }) {
        Ok(r) => r,
        Err(e) => {
            return Err(e);
        },
    };
    raster.paint_chunk(0, counts, palette);
    assert(raster.view_cells() =~= colorize(counts@, palette@));
    Ok(raster)
}

} // verus!

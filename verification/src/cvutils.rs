//! Assembly of the mosaic: every delivered tile is decoded and copied to
//! the place of its cell on one canvas, in whatever order the tiles arrive.

use crate::raster::{
    blank_pixels, canvas_height, canvas_pixels, canvas_width, decode_png, decoded_png, image_height,
    image_pixels, image_size, image_width, overlay, raster_positions, Canvas, Rgba8,
};
use vstd::prelude::*;

verus! {

/// Columns of the grid.
pub const ROWMAX: u32 = 20;

/// Rows of the grid.
pub const COLMAX: u32 = 20;

/// Edge of one tile in pixels.
pub const TILE_WIDTH: u32 = 550;

/// Tiles of one snapshot, and the capacity of the conduit that carries them.
pub const TILE_COUNT: usize = 400;

/// Whether column `x` and row `y` name a cell of the grid.
pub open spec fn in_grid(x: int, y: int) -> bool {
    0 <= x < 20 && 0 <= y < 20
}

/// The place of cell (`x`, `y`) when the grid is walked column by column.
pub open spec fn cell_index(x: int, y: int) -> int {
    x * 20 + y
}

/// One tile as it comes off the conduit: the encoded bytes and the cell
/// that they belong to.
pub struct Delivery {
    pub bytes: Seq<u8>,
    pub x: u32,
    pub y: u32,
}

/// The mosaic as far as it is assembled: the pixels of the canvas, and for
/// each cell of the grid, by `cell_index`, whether its delivery was consumed
/// and whether its tile was copied to the canvas.
pub struct Mosaic {
    pub pixels: Map<(int, int), Rgba8>,
    pub seen: Seq<bool>,
    pub placed: Seq<bool>,
}

/// Why a delivery left no tile on the canvas.
#[derive(Debug, PartialEq, Eq, Clone, Copy, Structural)]
pub enum AssemblyError {
    /// The cell lies outside the grid. Nothing was consumed.
    InvariantViolation,
    /// The cell's delivery was consumed before. Nothing was consumed now.
    Duplicate,
    /// The bytes are no PNG image. The delivery is consumed, its cell stays
    /// blank.
    DecodeError,
    /// The image is wider or higher than a cell. The delivery is consumed,
    /// its cell stays blank.
    Oversize,
}

/// How many entries of `flags` are set.
pub open spec fn count_set(flags: Seq<bool>) -> nat
    decreases flags.len(),
{
    if flags.len() == 0 {
        0
    } else {
        count_set(flags.drop_last()) + if flags.last() {
            1nat
        } else {
            0nat
        }
    }
}

/// The image that a delivery holds, where its bytes decode as a PNG image
/// that is no larger than a cell.
pub open spec fn tile_of(bytes: Seq<u8>) -> Option<image::DynamicImage> {
    match decoded_png(bytes) {
        Ok(image) => if image_width(image) <= 550 && image_height(image) <= 550 {
            Some(image)
        } else {
            None
        },
        Err(_) => None,
    }
}

/// What a delivery leaves behind other than a tile on the canvas, if so.
pub open spec fn fault_of(m: Mosaic, d: Delivery) -> Option<AssemblyError> {
    if !in_grid(d.x as int, d.y as int) {
        Some(AssemblyError::InvariantViolation)
    } else if m.seen[cell_index(d.x as int, d.y as int)] {
        Some(AssemblyError::Duplicate)
    } else {
        match decoded_png(d.bytes) {
            Ok(image) => if image_width(image) <= 550 && image_height(image) <= 550 {
                None
            } else {
                Some(AssemblyError::Oversize)
            },
            Err(_) => Some(AssemblyError::DecodeError),
        }
    }
}

/// The mosaic after the delivery `d`. A delivery for a cell outside the grid
/// or for a cell already served changes nothing. Any other is consumed; its
/// image, where it has one that fits a cell, is laid over the canvas with
/// its upper left corner at column `550 * d.x` and row `550 * d.y`.
pub open spec fn deliver(m: Mosaic, d: Delivery) -> Mosaic {
    let cell = cell_index(d.x as int, d.y as int);
    if !in_grid(d.x as int, d.y as int) || m.seen[cell] {
        m
    } else {
        match tile_of(d.bytes) {
            Some(image) => Mosaic {
                pixels: overlay(
                    m.pixels,
                    image_pixels(image),
                    image_width(image),
                    image_height(image),
                    550 * d.x,
                    550 * d.y,
                ),
                seen: m.seen.update(cell, true),
                placed: m.placed.update(cell, true),
            },
            None => Mosaic { pixels: m.pixels, seen: m.seen.update(cell, true), placed: m.placed },
        }
    }
}

/// The mosaic before any delivery: a canvas of 11000 x 11000 zero pixels,
/// no cell served.
pub open spec fn empty_mosaic() -> Mosaic {
    Mosaic {
        pixels: blank_pixels(11000, 11000),
        seen: Seq::new(400, |i: int| false),
        placed: Seq::new(400, |i: int| false),
    }
}

/// The mosaic after the deliveries `deliveries`, in that order.
pub open spec fn assemble(deliveries: Seq<Delivery>) -> Mosaic
    decreases deliveries.len(),
{
    if deliveries.len() == 0 {
        empty_mosaic()
    } else {
        deliver(assemble(deliveries.drop_last()), deliveries.last())
    }
}

/// Whether every cell of the grid has had its delivery.
pub open spec fn complete(m: Mosaic) -> bool {
    forall|i: int| 0 <= i < 400 ==> #[trigger] m.seen[i]
}


/// No more flags are set than there are, and all are set exactly where the
/// count is the length.
pub proof fn lemma_count_set(flags: Seq<bool>)
    ensures
        count_set(flags) <= flags.len(),
        count_set(flags) == flags.len() <==> forall|i: int| 0 <= i < flags.len() ==> #[trigger] flags[i],
    decreases flags.len(),
{
    if flags.len() > 0 {
        let rest = flags.drop_last();
        lemma_count_set(rest);
        if count_set(flags) == flags.len() {
            assert forall|i: int| 0 <= i < flags.len() implies #[trigger] flags[i] by {
                if i < rest.len() {
                    assert(rest[i]);
                }
            }
        }
        if forall|i: int| 0 <= i < flags.len() ==> #[trigger] flags[i] {
            assert forall|i: int| 0 <= i < rest.len() implies #[trigger] rest[i] by {
                assert(flags[i]);
            }
        }
    }
}

/// Setting a flag that was clear raises the count by one.
pub proof fn lemma_count_set_raised(flags: Seq<bool>, i: int)
    requires
        0 <= i < flags.len(),
        !flags[i],
    ensures
        count_set(flags.update(i, true)) == count_set(flags) + 1,
    decreases flags.len(),
{
    let raised = flags.update(i, true);
    if i == flags.len() - 1 {
        assert(raised.drop_last() =~= flags.drop_last());
    } else {
        lemma_count_set_raised(flags.drop_last(), i);
        assert(raised.drop_last() =~= flags.drop_last().update(i, true));
    }
}


/// Whether pixel position `p` lies in the part of the canvas that belongs
/// to the cell in column `x` and row `y`.
pub open spec fn in_region(x: int, y: int, p: (int, int)) -> bool {
    550 * x <= p.0 < 550 * x + 550 && 550 * y <= p.1 < 550 * y + 550
}

/// The first delivery among `deliveries` that is addressed to the cell in
/// column `x` and row `y`.
pub open spec fn first_for(deliveries: Seq<Delivery>, x: int, y: int) -> Option<Delivery>
    decreases deliveries.len(),
{
    if deliveries.len() == 0 {
        None
    } else {
        match first_for(deliveries.drop_last(), x, y) {
            Some(d) => Some(d),
            None => if deliveries.last().x == x && deliveries.last().y == y {
                Some(deliveries.last())
            } else {
                None
            },
        }
    }
}

/// The pixel at position `p` of the region of cell (`x`, `y`) when `first`
/// is the delivery that served the cell: the pixel of its tile where the
/// tile covers `p`, and a zero pixel where no tile does.
pub open spec fn region_pixel(first: Option<Delivery>, x: int, y: int, p: (int, int)) -> Rgba8 {
    match first {
        Some(d) => match tile_of(d.bytes) {
            Some(image) => if p.0 - 550 * x < image_width(image) && p.1 - 550 * y < image_height(
                image,
            ) {
                image_pixels(image)[(p.0 - 550 * x, p.1 - 550 * y)]
            } else {
                (0u8, 0u8, 0u8, 0u8)
            },
            None => (0u8, 0u8, 0u8, 0u8),
        },
        None => (0u8, 0u8, 0u8, 0u8),
    }
}

/// Whether no two of the deliveries are addressed to the same cell.
pub open spec fn distinct_cells(deliveries: Seq<Delivery>) -> bool {
    forall|i: int, j: int|
        0 <= i < j < deliveries.len() ==> !(deliveries[i].x == deliveries[j].x && deliveries[i].y
            == deliveries[j].y)
}

/// Whether every delivery is addressed to a cell of the grid.
pub open spec fn all_in_grid(deliveries: Seq<Delivery>) -> bool {
    forall|i: int|
        0 <= i < deliveries.len() ==> in_grid(
            (#[trigger] deliveries[i]).x as int,
            deliveries[i].y as int,
        )
}

/// An assembled mosaic keeps its shape: a canvas of 11000 x 11000 pixels
/// and two flags for each of the 400 cells.
pub proof fn lemma_assembled_shape(deliveries: Seq<Delivery>)
    ensures
        assemble(deliveries).seen.len() == 400,
        assemble(deliveries).placed.len() == 400,
        assemble(deliveries).pixels.dom() == raster_positions(11000, 11000),
    decreases deliveries.len(),
{
    if deliveries.len() == 0 {
        assert(empty_mosaic().pixels.dom() =~= raster_positions(11000, 11000));
    } else {
        lemma_assembled_shape(deliveries.drop_last());
        let m = assemble(deliveries.drop_last());
        let d = deliveries.last();
        assert(deliver(m, d).pixels.dom() =~= m.pixels.dom());
    }
}

/// A first delivery for a cell is one of the deliveries and is addressed
/// to that cell; where there is none, no delivery is addressed to it.
pub proof fn lemma_first_for(deliveries: Seq<Delivery>, x: int, y: int)
    ensures
        match first_for(deliveries, x, y) {
            Some(d) => deliveries.contains(d) && d.x == x && d.y == y,
            None => forall|i: int|
                0 <= i < deliveries.len() ==> !((#[trigger] deliveries[i]).x == x
                    && deliveries[i].y == y),
        },
    decreases deliveries.len(),
{
    if deliveries.len() > 0 {
        let rest = deliveries.drop_last();
        lemma_first_for(rest, x, y);
        match first_for(rest, x, y) {
            Some(d) => {
                let i = choose|i: int| 0 <= i < rest.len() && rest[i] == d;
                assert(deliveries[i] == d);
            },
            None => {
                if deliveries.last().x == x && deliveries.last().y == y {
                    assert(deliveries[deliveries.len() - 1] == deliveries.last());
                } else {
                    assert forall|i: int| 0 <= i < deliveries.len() implies !((
                    #[trigger] deliveries[i]).x == x && deliveries[i].y == y) by {
                        if i < rest.len() {
                            assert(rest[i] == deliveries[i]);
                        }
                    }
                }
            },
        }
    }
}

/// What the mosaic holds for one cell of the grid after any run of
/// deliveries. The cell counts as served exactly where a delivery was
/// addressed to it. Its tile is on the canvas exactly where the first such
/// delivery decoded to an image no larger than a cell. Each pixel of its
/// region is the pixel of that tile where the tile covers it, and zero
/// elsewhere: a cell whose delivery did not decode stays blank, and later
/// deliveries for the cell change nothing.
pub proof fn lemma_cell_after_assembly(deliveries: Seq<Delivery>, x: int, y: int)
    requires
        in_grid(x, y),
    ensures
        assemble(deliveries).seen[cell_index(x, y)] == (first_for(deliveries, x, y) is Some),
        assemble(deliveries).placed[cell_index(x, y)] == (first_for(deliveries, x, y) matches Some(
            d,
        ) && tile_of(d.bytes) is Some),
        forall|p: (int, int)|
            in_region(x, y, p) ==> #[trigger] assemble(deliveries).pixels[p] == region_pixel(
                first_for(deliveries, x, y),
                x,
                y,
                p,
            ),
    decreases deliveries.len(),
{
    let cell = cell_index(x, y);
    if deliveries.len() == 0 {
        assert forall|p: (int, int)| in_region(x, y, p) implies #[trigger] assemble(
            deliveries,
        ).pixels[p] == region_pixel(first_for(deliveries, x, y), x, y, p) by {
            assert(raster_positions(11000, 11000).contains(p));
        }
    } else {
        let rest = deliveries.drop_last();
        let d = deliveries.last();
        let m = assemble(rest);
        lemma_cell_after_assembly(rest, x, y);
        lemma_assembled_shape(rest);
        let dcell = cell_index(d.x as int, d.y as int);
        if !in_grid(d.x as int, d.y as int) || m.seen[dcell] {
            assert(assemble(deliveries) == m);
        } else {
            assert((d.x == x && d.y == y) || dcell != cell);
            assert forall|p: (int, int)| in_region(x, y, p) implies #[trigger] assemble(
                deliveries,
            ).pixels[p] == region_pixel(first_for(deliveries, x, y), x, y, p) by {
                assert(raster_positions(11000, 11000).contains(p));
                assert(m.pixels[p] == region_pixel(first_for(rest, x, y), x, y, p));
            }
        }
    }
}

/// A delivery for a cell that was served before changes nothing: it is
/// neither copied nor counted.
pub proof fn lemma_duplicate_ignored(deliveries: Seq<Delivery>, d: Delivery)
    requires
        in_grid(d.x as int, d.y as int),
        first_for(deliveries, d.x as int, d.y as int) is Some,
    ensures
        assemble(deliveries.push(d)) == assemble(deliveries),
{
    lemma_cell_after_assembly(deliveries, d.x as int, d.y as int);
    assert(deliveries.push(d).drop_last() =~= deliveries);
}

/// The cells served never outnumber the deliveries, and where the
/// deliveries are addressed to cells of the grid, no two to the same, each
/// of them is counted.
pub proof fn lemma_consumed_count(deliveries: Seq<Delivery>)
    ensures
        count_set(assemble(deliveries).seen) <= deliveries.len(),
        all_in_grid(deliveries) && distinct_cells(deliveries) ==> count_set(
            assemble(deliveries).seen,
        ) == deliveries.len(),
    decreases deliveries.len(),
{
    if deliveries.len() == 0 {
        lemma_none_set(empty_mosaic().seen);
    } else {
        let rest = deliveries.drop_last();
        let d = deliveries.last();
        let m = assemble(rest);
        lemma_consumed_count(rest);
        lemma_assembled_shape(rest);
        let dcell = cell_index(d.x as int, d.y as int);
        if in_grid(d.x as int, d.y as int) && !m.seen[dcell] {
            lemma_count_set_raised(m.seen, dcell);
        }
        if all_in_grid(deliveries) && distinct_cells(deliveries) {
            assert(all_in_grid(rest)) by {
                assert forall|i: int| 0 <= i < rest.len() implies in_grid(
                    (#[trigger] rest[i]).x as int,
                    rest[i].y as int,
                ) by {
                    assert(rest[i] == deliveries[i]);
                }
            }
            assert(distinct_cells(rest)) by {
                assert forall|i: int, j: int| 0 <= i < j < rest.len() implies !(rest[i].x
                    == rest[j].x && rest[i].y == rest[j].y) by {
                    assert(rest[i] == deliveries[i] && rest[j] == deliveries[j]);
                }
            }
            assert(in_grid(d.x as int, d.y as int)) by {
                assert(deliveries[deliveries.len() - 1] == d);
            }
            lemma_cell_after_assembly(rest, d.x as int, d.y as int);
            lemma_first_for(rest, d.x as int, d.y as int);
            if first_for(rest, d.x as int, d.y as int) is Some {
                let e = first_for(rest, d.x as int, d.y as int)->0;
                let i = choose|i: int| 0 <= i < rest.len() && rest[i] == e;
                assert(deliveries[i] == e);
                assert(deliveries[deliveries.len() - 1] == d);
                assert(false);
            }
        }
    }
}

/// No flag of a sequence of clear flags is counted.
pub proof fn lemma_none_set(flags: Seq<bool>)
    requires
        forall|i: int| 0 <= i < flags.len() ==> !#[trigger] flags[i],
    ensures
        count_set(flags) == 0,
    decreases flags.len(),
{
    if flags.len() > 0 {
        let rest = flags.drop_last();
        assert forall|i: int| 0 <= i < rest.len() implies !#[trigger] rest[i] by {
            assert(rest[i] == flags[i]);
        }
        lemma_none_set(rest);
    }
}

/// The assembly is finished after exactly 400 deliveries to different
/// cells of the grid and not before: with fewer deliveries of any kind some
/// cell is still open, and deliveries to different cells of the grid finish
/// it exactly where there are 400 of them.
pub proof fn lemma_complete_after_exactly_400(deliveries: Seq<Delivery>)
    ensures
        complete(assemble(deliveries)) <==> count_set(assemble(deliveries).seen) == 400,
        deliveries.len() < 400 ==> !complete(assemble(deliveries)),
        all_in_grid(deliveries) && distinct_cells(deliveries) ==> (complete(assemble(deliveries))
            <==> deliveries.len() == 400),
{
    lemma_assembled_shape(deliveries);
    lemma_count_set(assemble(deliveries).seen);
    lemma_consumed_count(deliveries);
}


/// Two runs of the same deliveries, no two of them addressed to the same
/// cell, serve each cell with the same delivery.
pub proof fn lemma_same_first(a: Seq<Delivery>, b: Seq<Delivery>, x: int, y: int)
    requires
        a.to_multiset() == b.to_multiset(),
        distinct_cells(a),
    ensures
        first_for(a, x, y) == first_for(b, x, y),
{
    a.to_multiset_ensures();
    b.to_multiset_ensures();
    lemma_first_for(a, x, y);
    lemma_first_for(b, x, y);
    match first_for(b, x, y) {
        Some(d) => {
            assert(b.to_multiset().count(d) > 0);
            assert(a.contains(d));
            let i = choose|i: int| 0 <= i < a.len() && a[i] == d;
            match first_for(a, x, y) {
                Some(e) => {
                    let j = choose|j: int| 0 <= j < a.len() && a[j] == e;
                    if i < j {
                        assert(!(a[i].x == a[j].x && a[i].y == a[j].y));
                    } else if j < i {
                        assert(!(a[j].x == a[i].x && a[j].y == a[i].y));
                    }
                },
                None => {
                    assert(!(a[i].x == x && a[i].y == y));
                },
            }
        },
        None => {
            match first_for(a, x, y) {
                Some(e) => {
                    assert(a.to_multiset().count(e) > 0);
                    assert(b.contains(e));
                    let j = choose|j: int| 0 <= j < b.len() && b[j] == e;
                    assert(!(b[j].x == x && b[j].y == y));
                },
                None => {},
            }
        },
    }
}

/// The order of arrival does not matter: the same deliveries, no two of
/// them addressed to the same cell, give the same mosaic in whatever order
/// they are consumed, pixel for pixel and flag for flag.
pub proof fn lemma_order_independent(a: Seq<Delivery>, b: Seq<Delivery>)
    requires
        a.to_multiset() == b.to_multiset(),
        distinct_cells(a),
    ensures
        assemble(a) == assemble(b),
{
    let ma = assemble(a);
    let mb = assemble(b);
    lemma_assembled_shape(a);
    lemma_assembled_shape(b);
    assert forall|i: int| 0 <= i < 400 implies ma.seen[i] == mb.seen[i] && ma.placed[i]
        == mb.placed[i] by {
        let x = i / 20;
        let y = i % 20;
        assert(in_grid(x, y) && cell_index(x, y) == i);
        lemma_same_first(a, b, x, y);
        lemma_cell_after_assembly(a, x, y);
        lemma_cell_after_assembly(b, x, y);
    }
    assert(ma.seen =~= mb.seen);
    assert(ma.placed =~= mb.placed);
    assert forall|p: (int, int)| ma.pixels.dom().contains(p) implies ma.pixels[p]
        == mb.pixels[p] by {
        let x = p.0 / 550;
        let y = p.1 / 550;
        assert(in_grid(x, y) && in_region(x, y, p));
        lemma_same_first(a, b, x, y);
        lemma_cell_after_assembly(a, x, y);
        lemma_cell_after_assembly(b, x, y);
    }
    assert(ma.pixels =~= mb.pixels);
}

/// The assembler of one mosaic: it owns the canvas and keeps track of the
/// cells served.
pub struct Assembler {
    canvas: Canvas,
    seen: Vec<bool>,
    placed: Vec<bool>,
}

impl View for Assembler {
    type V = Mosaic;

    closed spec fn view(&self) -> Mosaic {
        Mosaic { pixels: canvas_pixels(self.canvas), seen: self.seen@, placed: self.placed@ }
    }
}

impl Assembler {
    /// Whether the canvas has the size of the full grid and every cell of
    /// the grid has its two flags.
    pub closed spec fn wf(&self) -> bool {
        &&& canvas_width(self.canvas) == 11000
        &&& canvas_height(self.canvas) == 11000
        &&& self.seen@.len() == 400
        &&& self.placed@.len() == 400
    }

    /// Starts the assembly of one mosaic on a blank canvas.
    pub fn new() -> (assembler: Self)
        ensures
            assembler.wf(),
            assembler@ == empty_mosaic(),
    {
        let mut seen: Vec<bool> = Vec::new();
        let mut placed: Vec<bool> = Vec::new();
        let mut i: usize = 0;
        while i < TILE_COUNT
            invariant
                i <= 400,
                seen@.len() == i,
                placed@.len() == i,
                forall|j: int| 0 <= j < i ==> !seen@[j] && !placed@[j],
            decreases 400 - i,
        {
            seen.push(false);
            placed.push(false);
            i = i + 1;
        }
        let canvas = Canvas::blank(ROWMAX * TILE_WIDTH, COLMAX * TILE_WIDTH);
        assert(seen@ =~= empty_mosaic().seen);
        assert(placed@ =~= empty_mosaic().placed);
        Assembler { canvas, seen, placed }
    }

    /// Takes one delivery off the conduit: the encoded bytes of the tile of
    /// column `x` and row `y`. The tile is decoded as PNG, the publisher's
    /// format, and copied to the place of its cell. The result tells a tile on the canvas from a delivery that
    /// left none, and why. The count of cells served goes up by one, except
    /// for a cell outside the grid or served before, which leave it as it is.
    pub fn accept(&mut self, bytes: &[u8], x: u32, y: u32) -> (r: Result<(), AssemblyError>)
        requires
            old(self).wf(),
        ensures
            final(self).wf(),
            final(self)@ == deliver(old(self)@, Delivery { bytes: bytes@, x, y }),
            match fault_of(old(self)@, Delivery { bytes: bytes@, x, y }) {
                Some(fault) => r == Err::<(), AssemblyError>(fault),
                None => r is Ok,
            },
            count_set(final(self)@.seen) == count_set(old(self)@.seen) + if r == Err::<
                (),
                AssemblyError,
            >(AssemblyError::InvariantViolation) || r == Err::<(), AssemblyError>(
                AssemblyError::Duplicate,
            ) {
                0nat
            } else {
                1nat
            },
    {
        if x >= ROWMAX || y >= COLMAX {
            return Err(AssemblyError::InvariantViolation);
        }
        let cell: usize = (x * COLMAX + y) as usize;
        if self.seen[cell] {
            return Err(AssemblyError::Duplicate);
        }
        proof {
            lemma_count_set_raised(self.seen@, cell as int);
        }
        self.seen.set(cell, true);
        let image = match decode_png(bytes) {
            Ok(image) => image,
            Err(_) => {
                return Err(AssemblyError::DecodeError);
            },
        };
        let (width, height) = image_size(&image);
        if width > TILE_WIDTH || height > TILE_WIDTH {
            return Err(AssemblyError::Oversize);
        }
        match self.canvas.place(&image, x * TILE_WIDTH, y * TILE_WIDTH) {
            Ok(()) => {
                self.placed.set(cell, true);
                Ok(())
            },
            Err(_) => Err(AssemblyError::Oversize),
        }
    }

    /// How many deliveries were consumed so far: the cells served.
    pub fn consumed(&self) -> (n: usize)
        requires
            self.wf(),
        ensures
            n == count_set(self@.seen),
            n <= 400,
    {
        let mut n: usize = 0;
        let mut i: usize = 0;
        while i < self.seen.len()
            invariant
                i <= self.seen@.len(),
                self.seen@.len() == 400,
                n == count_set(self.seen@.take(i as int)),
                n <= i,
            decreases self.seen@.len() - i,
        {
            proof {
                assert(self.seen@.take(i + 1).drop_last() =~= self.seen@.take(i as int));
            }
            if self.seen[i] {
                n = n + 1;
            }
            i = i + 1;
        }
        proof {
            assert(self.seen@.take(400) =~= self.seen@);
        }
        n
    }

    /// Whether every cell of the grid has had its delivery, so that the
    /// mosaic is finished.
    pub fn is_complete(&self) -> (done: bool)
        requires
            self.wf(),
        ensures
            done == complete(self@),
            done == (count_set(self@.seen) == 400),
    {
        proof {
            lemma_count_set(self@.seen);
        }
        self.consumed() == TILE_COUNT
    }

    /// Whether the delivery for the cell in column `x` and row `y` was
    /// consumed.
    pub fn has_seen(&self, x: u32, y: u32) -> (seen: bool)
        requires
            self.wf(),
        ensures
            seen == (in_grid(x as int, y as int) && self@.seen[cell_index(x as int, y as int)]),
    {
        if x >= ROWMAX || y >= COLMAX {
            return false;
        }
        self.seen[(x * COLMAX + y) as usize]
    }

    /// Whether the tile of the cell in column `x` and row `y` is on the
    /// canvas.
    pub fn is_placed(&self, x: u32, y: u32) -> (placed: bool)
        requires
            self.wf(),
        ensures
            placed == (in_grid(x as int, y as int) && self@.placed[cell_index(x as int, y as int)]),
    {
        if x >= ROWMAX || y >= COLMAX {
            return false;
        }
        self.placed[(x * COLMAX + y) as usize]
    }

    /// The pixel of the canvas in column `px` and row `py`, if there is one.
    pub fn pixel(&self, px: u32, py: u32) -> (p: Option<Rgba8>)
        requires
            self.wf(),
        ensures
            p == if px < 11000 && py < 11000 {
                Some(self@.pixels[(px as int, py as int)])
            } else {
                None
            },
    {
        if px < ROWMAX * TILE_WIDTH && py < COLMAX * TILE_WIDTH {
            Some(self.canvas.pixel(px, py))
        } else {
            None
        }
    }

    /// Hands over the finished canvas, 11000 pixels wide and high, once
    /// every cell has had its delivery. Before that the assembler comes back
    /// as it is.
    pub fn finish(self) -> (r: Result<image::DynamicImage, Assembler>)
        requires
            self.wf(),
        ensures
            match r {
                Ok(image) => complete(self@) && image_width(image) == 11000 && image_height(image)
                    == 11000 && image_pixels(image) == self@.pixels,
                Err(assembler) => !complete(self@) && assembler == self,
            },
    {
        if self.is_complete() {
            Ok(self.canvas.into_image())
        } else {
            Err(self)
        }
    }
}

} // verus!

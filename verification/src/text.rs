//! The part of text that is specific to drawing: how a face is asked for, and
//! an atlas that glyphs are packed into once and read from every frame.
//!
//! Shaping is not here. Ligatures, marks, reordering and fallback belong to
//! a shaper; what is here is the cache it draws into.

use etagere::{size2, AtlasAllocator};
use vstd::prelude::*;

verus! {

/// Where a line sits in the space it was given.
#[derive(Debug, Clone, Copy, PartialEq, Eq, Default)]
pub enum Align {
    #[default]
    Start,
    Centre,
    End,
}

/// How heavy a face to ask for.
#[derive(Debug, Clone, Copy, PartialEq, Eq)]
pub enum Weight {
    Regular,
    Medium,
    Bold,
}

/// Where one glyph sits in the atlas.
#[derive(Debug, Clone, Copy, PartialEq, Eq)]
pub struct AtlasSlot {
    pub x: u32,
    pub y: u32,
    pub width: u32,
    pub height: u32,
}

#[verifier::external_type_specification]
#[verifier::external_body]
pub struct ExAtlasAllocator(AtlasAllocator);

/// The rectangles an allocator has handed out, as `(min x, min y, max x,
/// max y)`, max exclusive.
pub uninterp spec fn allocations(allocator: AtlasAllocator) -> Set<(int, int, int, int)>;

/// The width and height an allocator was made with.
pub uninterp spec fn allocator_size(allocator: AtlasAllocator) -> (int, int);

/// Two rectangles, max exclusive, share no pixel.
pub open spec fn apart(a: (int, int, int, int), b: (int, int, int, int)) -> bool {
    a.2 <= b.0 || b.2 <= a.0 || a.3 <= b.1 || b.3 <= a.1
}

/// `AtlasAllocator::new(size2(width, height))`.
///
/// Trusted: a new allocator has handed out nothing and remembers its size.
/// The crate asserts a positive size of at most `u16::MAX` a side whose area
/// fits an `i32`, which is what `requires` asks.
#[verifier::external_body]
pub(crate) fn new_allocator(width: i32, height: i32) -> (allocator: AtlasAllocator)
    requires
        0 < width <= u16::MAX,
        0 < height <= u16::MAX,
        width * height <= i32::MAX,
    ensures
        allocations(allocator) == Set::<(int, int, int, int)>::empty(),
        allocator_size(allocator) == (width as int, height as int),
{
    AtlasAllocator::new(size2(width, height))
}

/// How many rectangles an allocator is asked to hold at most.
///
/// The allocator numbers its items with `u16`s and keeps `u16::MAX` to mean
/// "none". It starts with one item, and every rectangle it hands out adds at
/// most two, so after this many rectangles the next one could be numbered
/// `u16::MAX` and the allocator's lists would no longer say which space is
/// free: it would hand out space already in use. This is the most it holds
/// with every number still its own; an atlas that has packed this many is
/// full.
pub const MOST_PACKED: u32 = 32767;

/// The largest side an allocator here is made with. The allocator adds a
/// few pixels to a shelf's height in `u16` arithmetic, which a side this
/// size keeps clear of overflow; it is also the largest square whose area
/// fits an `i32`.
pub const LARGEST_SIDE: i32 = 46340;

/// `AtlasAllocator::allocate(size2(width, height))`, as the rectangle's corners.
///
/// Trusted: an empty size, or one wider or taller than `u16::MAX`, is
/// refused; a rectangle that is handed out is at least the size asked for,
/// lies inside the allocator's size, shares no pixel with anything handed
/// out before, and is remembered as handed out. A refusal changes nothing.
/// An allocator that has handed out nothing yet always finds room for a
/// size that fits inside it: its one empty shelf spans the whole allocator.
/// Which rectangle the shelf packing picks, and when it refuses a size that
/// would fit in an allocator already holding something, is not stated.
#[verifier::external_body]
pub(crate) fn allocate(allocator: &mut AtlasAllocator, width: i32, height: i32) -> (found: Option<(i32, i32, i32, i32)>)
    requires
        allocator_size(*old(allocator)).0 <= LARGEST_SIDE,
        allocator_size(*old(allocator)).1 <= LARGEST_SIDE,
        allocations(*old(allocator)).finite(),
        allocations(*old(allocator)).len() < MOST_PACKED,
    ensures
        allocator_size(*final(allocator)) == allocator_size(*old(allocator)),
        width <= 0 || height <= 0 || width > u16::MAX || height > u16::MAX ==> found is None,
        allocations(*old(allocator)).is_empty() && 0 < width <= allocator_size(*old(allocator)).0
            && 0 < height <= allocator_size(*old(allocator)).1 ==> found is Some,
        found matches Some((x0, y0, x1, y1)) ==> {
            &&& 0 <= x0 && x0 + width <= x1 && x1 <= allocator_size(*old(allocator)).0
            &&& 0 <= y0 && y0 + height <= y1 && y1 <= allocator_size(*old(allocator)).1
            &&& forall|r: (int, int, int, int)| allocations(*old(allocator)).contains(r)
                ==> apart((x0 as int, y0 as int, x1 as int, y1 as int), r)
            &&& allocations(*final(allocator)) == allocations(*old(allocator)).insert(
                (x0 as int, y0 as int, x1 as int, y1 as int),
            )
        },
        found is None ==> allocations(*final(allocator)) == allocations(*old(allocator)),
{
    allocator.allocate(size2(width, height)).map(
        |a: etagere::Allocation| (a.rectangle.min.x, a.rectangle.min.y, a.rectangle.max.x, a.rectangle.max.y),
    )
}

/// A single-channel atlas of coverage masks, packed as they are asked for.
///
/// One channel rather than four: a glyph is a shape, not a picture, and its
/// colour is applied when it is drawn. That is what lets the same cached glyph
/// serve text in every colour in the window.
pub struct Atlas {
    allocator: AtlasAllocator,
    pixels: Vec<u8>,
    side: u32,
    /// Which region has been written since the last time the caller asked, so
    /// that uploading does not mean sending the whole atlas every frame.
    dirty: Option<(u32, u32, u32, u32)>,
    /// How many rectangles have been packed.
    count: u32,
}

/// An atlas as a value.
pub struct AtlasView {
    pub side: int,
    pub pixels: Seq<u8>,
    pub dirty: Option<(u32, u32, u32, u32)>,
    /// The rectangles packed so far, padding included.
    pub packed: Set<(int, int, int, int)>,
}

impl View for Atlas {
    type V = AtlasView;

    closed spec fn view(&self) -> AtlasView {
        AtlasView {
            side: self.side as int,
            pixels: self.pixels@,
            dirty: self.dirty,
            packed: allocations(self.allocator),
        }
    }
}

/// The index of the pixel in row `row`, column `column`, of a square
/// `side` pixels wide.
pub open spec fn cell(side: int, row: int, column: int) -> int {
    row * side + column
}

/// Whether pixel `i` of a square `side` wide lies in the rectangle of
/// width `w` and height `h` at `(x, y)`.
pub open spec fn in_rect(side: int, i: int, x: int, y: int, w: int, h: int) -> bool {
    y <= i / side < y + h && x <= i % side < x + w
}

/// `after` is `before` with the `width` by `height` mask, row after row,
/// written at `(x, y)`, and every other pixel left as it was.
pub open spec fn drawn(before: Seq<u8>, after: Seq<u8>, side: int, x: int, y: int, width: int, height: int, mask: Seq<u8>) -> bool {
    &&& after.len() == before.len()
    &&& forall|r: int, c: int|
        0 <= r < height && 0 <= c < width ==> #[trigger] after[cell(side, y + r, x + c)] == mask[r * width + c]
    &&& forall|i: int|
        0 <= i < before.len() && !in_rect(side, i, x, y, width, height) ==> #[trigger] after[i] == before[i]
}

/// The written region grown to take in a `width` by `height` rectangle at
/// `(x, y)`: that rectangle if nothing was written yet, or the smallest
/// region covering both.
pub open spec fn grown(dirty: Option<(u32, u32, u32, u32)>, x: int, y: int, width: int, height: int) -> Option<(u32, u32, u32, u32)> {
    match dirty {
        None => Some((x as u32, y as u32, (x + width) as u32, (y + height) as u32)),
        Some((l, t, r, b)) => Some((
            if l < x { l } else { x as u32 },
            if t < y { t } else { y as u32 },
            if r > x + width { r } else { (x + width) as u32 },
            if b > y + height { b } else { (y + height) as u32 },
        )),
    }
}

/// A slot with its pixel of padding on the right and at the bottom, as a
/// rectangle.
pub open spec fn padded(slot: AtlasSlot) -> (int, int, int, int) {
    (slot.x as int, slot.y as int, slot.x + slot.width + 1, slot.y + slot.height + 1)
}

/// `outer` covers `inner`.
pub open spec fn covers(outer: (int, int, int, int), inner: (int, int, int, int)) -> bool {
    outer.0 <= inner.0 && inner.2 <= outer.2 && outer.1 <= inner.1 && inner.3 <= outer.3
}

/// What adding a `width` by `height` mask to an atlas does, given what it
/// answered.
pub open spec fn added(before: AtlasView, width: int, height: int, mask: Seq<u8>, answer: Option<AtlasSlot>, after: AtlasView) -> bool {
    if width == 0 || height == 0 {
        answer == Some(AtlasSlot { x: 0, y: 0, width: 0, height: 0 }) && after == before
    } else if width >= u16::MAX || height >= u16::MAX || mask.len() < width * height
        || before.packed.len() >= MOST_PACKED {
        answer is None && after == before
    } else {
        &&& (before.packed.is_empty() && width + 1 <= before.side && height + 1 <= before.side
            ==> answer is Some)
        &&& match answer {
            None => after == before,
            Some(slot) => {
                &&& slot.width == width && slot.height == height
                &&& slot.x + width + 1 <= before.side && slot.y + height + 1 <= before.side
                &&& after.side == before.side
                &&& exists|r: (int, int, int, int)| {
                    &&& covers(r, padded(slot))
                    &&& forall|q: (int, int, int, int)| before.packed.contains(q) ==> apart(r, q)
                    &&& after.packed == before.packed.insert(r)
                }
                &&& drawn(before.pixels, after.pixels, before.side, slot.x as int, slot.y as int, width, height, mask)
                &&& after.dirty == grown(before.dirty, slot.x as int, slot.y as int, width, height)
            },
        }
    }
}

/// A rectangle with pixels in it shares pixels with itself, so one handed
/// out apart from every earlier rectangle is not among them, and packing it
/// adds one to how many there are.
pub proof fn lemma_new_rectangle_counts(packed: Set<(int, int, int, int)>, r: (int, int, int, int))
    requires
        packed.finite(),
        r.0 < r.2 && r.1 < r.3,
        forall|q: (int, int, int, int)| packed.contains(q) ==> apart(r, q),
    ensures
        !packed.contains(r),
        packed.insert(r).finite(),
        packed.insert(r).len() == packed.len() + 1,
{
    if packed.contains(r) {
        assert(apart(r, r));
    }
}

/// Rectangles inside two rectangles that share no pixel share none either.
pub proof fn lemma_apart_within(outer_a: (int, int, int, int), outer_b: (int, int, int, int), a: (int, int, int, int), b: (int, int, int, int))
    requires
        covers(outer_a, a),
        covers(outer_b, b),
        apart(outer_a, outer_b),
    ensures
        apart(a, b),
{
}

/// A slot handed out, with its padding, shares no pixel with any rectangle
/// packed before it.
proof fn lemma_slot_apart_from_packed(before: AtlasView, width: int, height: int, mask: Seq<u8>, slot: AtlasSlot, after: AtlasView, q: (int, int, int, int), inner: (int, int, int, int))
    requires
        width > 0 && height > 0,
        added(before, width, height, mask, Some(slot), after),
        before.packed.contains(q),
        covers(q, inner),
    ensures
        apart(padded(slot), inner),
{
    let r = choose|r: (int, int, int, int)| {
        &&& covers(r, padded(slot))
        &&& forall|q: (int, int, int, int)| before.packed.contains(q) ==> apart(r, q)
        &&& after.packed == before.packed.insert(r)
    };
    lemma_apart_within(r, q, padded(slot), inner);
}

/// No two of the rectangles share a pixel.
pub open spec fn pairwise_apart(packed: Set<(int, int, int, int)>) -> bool {
    forall|p: (int, int, int, int), q: (int, int, int, int)|
        packed.contains(p) && packed.contains(q) && p != q ==> apart(p, q)
}

/// Packing keeps every rectangle an atlas has handed out clear of every
/// other, whatever was added and whether or not it fitted: true of an empty
/// atlas, and true after every addition to one where it was true before.
pub proof fn packing_keeps_everything_apart(before: AtlasView, width: int, height: int, mask: Seq<u8>, answer: Option<AtlasSlot>, after: AtlasView)
    requires
        pairwise_apart(before.packed),
        added(before, width, height, mask, answer, after),
    ensures
        pairwise_apart(after.packed),
        pairwise_apart(Set::<(int, int, int, int)>::empty()),
{
    if width != 0 && height != 0 && answer is Some {
        let slot = answer->0;
        let r = choose|r: (int, int, int, int)| {
            &&& covers(r, padded(slot))
            &&& forall|q: (int, int, int, int)| before.packed.contains(q) ==> apart(r, q)
            &&& after.packed == before.packed.insert(r)
        };
        assert forall|p: (int, int, int, int), q: (int, int, int, int)|
            after.packed.contains(p) && after.packed.contains(q) && p != q implies apart(p, q) by {
            if p == r && !before.packed.contains(p) {
                assert(before.packed.contains(q));
            } else if q == r && !before.packed.contains(q) {
                assert(before.packed.contains(p));
                assert(apart(r, p));
            }
        }
    }
}

/// Two glyphs packed one after the other neither overlap nor touch: there
/// is at least one clear pixel between them, across or down.
pub proof fn packed_glyphs_keep_a_gap(
    v0: AtlasView,
    w1: int,
    h1: int,
    m1: Seq<u8>,
    a: AtlasSlot,
    v1: AtlasView,
    w2: int,
    h2: int,
    m2: Seq<u8>,
    b: AtlasSlot,
    v2: AtlasView,
)
    requires
        w1 > 0 && h1 > 0 && w2 > 0 && h2 > 0,
        added(v0, w1, h1, m1, Some(a), v1),
        added(v1, w2, h2, m2, Some(b), v2),
    ensures
        apart(padded(a), padded(b)),
        a.x + a.width < b.x || b.x + b.width < a.x || a.y + a.height < b.y || b.y + b.height < a.y,
{
    let r = choose|r: (int, int, int, int)| {
        &&& covers(r, padded(a))
        &&& forall|q: (int, int, int, int)| v0.packed.contains(q) ==> apart(r, q)
        &&& v1.packed == v0.packed.insert(r)
    };
    assert(v1.packed.contains(r));
    lemma_slot_apart_from_packed(v1, w2, h2, m2, b, v2, r, padded(a));
}

/// A glyph can still be read back where it was put after another one has
/// been packed.
pub proof fn an_earlier_glyph_survives_a_later_one(
    v0: AtlasView,
    w1: int,
    h1: int,
    m1: Seq<u8>,
    a: AtlasSlot,
    v1: AtlasView,
    w2: int,
    h2: int,
    m2: Seq<u8>,
    b: AtlasSlot,
    v2: AtlasView,
)
    requires
        v0.side > 0,
        v0.pixels.len() == v0.side * v0.side,
        w1 > 0 && h1 > 0 && w2 > 0 && h2 > 0,
        added(v0, w1, h1, m1, Some(a), v1),
        added(v1, w2, h2, m2, Some(b), v2),
    ensures
        forall|r: int, c: int|
            0 <= r < h1 && 0 <= c < w1 ==> #[trigger] v2.pixels[cell(v0.side, a.y + r, a.x + c)]
                == m1[r * w1 + c],
{
    packed_glyphs_keep_a_gap(v0, w1, h1, m1, a, v1, w2, h2, m2, b, v2);
    let side = v0.side;
    assert forall|r: int, c: int| 0 <= r < h1 && 0 <= c < w1 implies #[trigger] v2.pixels[cell(
        side,
        a.y + r,
        a.x + c,
    )] == m1[r * w1 + c] by {
        let i = cell(side, a.y + r, a.x + c);
        lemma_cell(side, a.y + r, a.x + c);
        lemma_cell_below(side, a.y + r, a.x + c, side);
        assert(v1.pixels[i] == m1[r * w1 + c]);
        assert(!in_rect(side, i, b.x as int, b.y as int, w2, h2));
    }
}

/// The region reported as written takes in what was just written and
/// everything it already held, and no more than the smallest region doing
/// both.
pub proof fn the_dirty_region_grows_to_what_was_written(dirty: Option<(u32, u32, u32, u32)>, x: u32, y: u32, width: u32, height: u32)
    requires
        x + width <= u32::MAX,
        y + height <= u32::MAX,
    ensures
        grown(dirty, x as int, y as int, width as int, height as int) matches Some((l, t, r, b)) && {
            &&& l <= x && t <= y && x + width <= r && y + height <= b
            &&& dirty matches Some((l0, t0, r0, b0)) ==> {
                &&& l <= l0 && t <= t0 && r0 <= r && b0 <= b
                &&& (l == l0 || l == x) && (t == t0 || t == y) && (r == r0 || r == x + width) && (b == b0
                    || b == y + height)
            }
            &&& dirty is None ==> l == x && t == y && r == x + width && b == y + height
        },
{
}

/// A pixel's row and column are the quotient and remainder of its index.
proof fn lemma_cell(side: int, row: int, column: int)
    requires
        side > 0,
        0 <= column < side,
    ensures
        cell(side, row, column) / side == row,
        cell(side, row, column) % side == column,
{
    vstd::arithmetic::div_mod::lemma_fundamental_div_mod_converse(cell(side, row, column), side, row, column);
}

/// A pixel in the first `rows` rows of a grid `side` wide has an index
/// below `rows * side`.
proof fn lemma_cell_below(side: int, row: int, column: int, rows: int)
    requires
        0 <= row < rows,
        0 <= column < side,
    ensures
        0 <= cell(side, row, column) < rows * side,
{
    assert(0 <= row * side + column < rows * side) by (nonlinear_arith)
        requires
            0 <= row < rows,
            0 <= column < side,
    ;
}

/// Writes a `width` by `height` mask, row after row, into a grid of bytes
/// `stride` wide, with its top left at `(x, y)`.
pub(crate) fn copy_mask(pixels: &mut Vec<u8>, stride: u32, x: u32, y: u32, width: u32, height: u32, mask: &[u8])
    requires
        0 < stride,
        x + width <= stride,
        ((y + height) as int) * (stride as int) <= old(pixels)@.len(),
        old(pixels)@.len() <= u32::MAX,
        width * height <= mask@.len(),
    ensures
        drawn(old(pixels)@, final(pixels)@, stride as int, x as int, y as int, width as int, height as int, mask@),
{
    let ghost before = pixels@;
    let ghost s = stride as int;
    proof {
        assert(width * height <= (y + height) as int * s) by (nonlinear_arith)
            requires
                x + width <= s,
                0 < s,
        ;
        assert((y + height) as int <= (y + height) as int * s) by (nonlinear_arith)
            requires
                0 < s,
        ;
    }
    let mut row: u32 = 0;
    while row < height
        invariant
            s == stride as int,
            0 < s,
            0 <= row <= height,
            x + width <= s,
            ((y + height) as int) * s <= before.len(),
            y + height <= before.len(),
            before.len() <= u32::MAX,
            width * height <= mask@.len(),
            width * height <= before.len(),
            pixels@.len() == before.len(),
            forall|r: int, c: int|
                0 <= r < row && 0 <= c < width ==> #[trigger] pixels@[cell(s, y + r, x + c)]
                    == mask@[r * width + c],
            forall|i: int|
                0 <= i < before.len() && !in_rect(s, i, x as int, y as int, width as int, row as int)
                    ==> #[trigger] pixels@[i] == before[i],
        decreases height - row,
    {
        proof {
            assert((row as int) * width + width <= width * height) by (nonlinear_arith)
                requires
                    row < height,
            ;
            assert(((y + row) as int) * s + s <= ((y + height) as int) * s) by (nonlinear_arith)
                requires
                    y + row < y + height,
                    s > 0,
            ;
        }
        let from = row * width;
        let to = (y + row) * stride + x;
        let mut c: u32 = 0;
        while c < width
            invariant
                s == stride as int,
                0 < s,
                0 <= row < height,
                0 <= c <= width,
                x + width <= s,
                from == row * width,
                to == (y + row) * s + x,
                (row as int) * width + width <= width * height,
                ((y + row) as int) * s + s <= ((y + height) as int) * s,
                ((y + height) as int) * s <= before.len(),
                before.len() <= u32::MAX,
                width * height <= mask@.len(),
                width * height <= before.len(),
                pixels@.len() == before.len(),
                forall|r: int, cc: int|
                    0 <= r < row && 0 <= cc < width ==> #[trigger] pixels@[cell(s, y + r, x + cc)]
                        == mask@[r * width + cc],
                forall|cc: int|
                    0 <= cc < c ==> #[trigger] pixels@[cell(s, y + row, x + cc)] == mask@[row * width + cc],
                forall|i: int|
                    0 <= i < before.len() && !in_rect(s, i, x as int, y as int, width as int, row as int)
                        && !in_rect(s, i, x as int, (y + row) as int, c as int, 1) ==> #[trigger] pixels@[i]
                        == before[i],
            decreases width - c,
        {
            proof {
                lemma_cell(s, (y + row) as int, (x + c) as int);
            }
            let value = mask[(from + c) as usize];
            pixels.set((to + c) as usize, value);
            proof {
                assert forall|r: int, cc: int|
                    0 <= r < row && 0 <= cc < width implies #[trigger] pixels@[cell(s, y + r, x + cc)]
                        == mask@[r * width + cc] by {
                    lemma_cell(s, y + r, x + cc);
                    lemma_cell_below(s, y + r, x + cc, (y + height) as int);
                }
                assert forall|cc: int|
                    0 <= cc < c + 1 implies #[trigger] pixels@[cell(s, y + row, x + cc)]
                        == mask@[row * width + cc] by {
                    lemma_cell(s, (y + row) as int, x + cc);
                    lemma_cell_below(s, (y + row) as int, x + cc, (y + height) as int);
                }
            }
            c = c + 1;
        }
        proof {
            assert forall|i: int|
                0 <= i < before.len() && !in_rect(s, i, x as int, y as int, width as int, row + 1)
                    implies #[trigger] pixels@[i] == before[i] by {
                assert(!in_rect(s, i, x as int, y as int, width as int, row as int));
                assert(!in_rect(s, i, x as int, (y + row) as int, width as int, 1));
            }
            assert forall|r: int, cc: int|
                0 <= r < row + 1 && 0 <= cc < width implies #[trigger] pixels@[cell(s, y + r, x + cc)]
                    == mask@[r * width + cc] by {
                if r == row {
                    assert(pixels@[cell(s, y + row, x + cc)] == mask@[row * width + cc]);
                }
            }
        }
        row = row + 1;
    }
}

impl Atlas {
    /// The side is positive and small enough that its area fits an `i32`;
    /// the pixels are the whole square; the allocator is the same size; and
    /// the count is how many rectangles the allocator has handed out.
    pub closed spec fn wf(&self) -> bool {
        &&& 0 < self.side
        &&& self.side * self.side <= i32::MAX
        &&& self.pixels@.len() == self.side * self.side
        &&& allocator_size(self.allocator) == (self.side as int, self.side as int)
        &&& allocations(self.allocator).finite()
        &&& allocations(self.allocator).len() == self.count
        &&& self.count <= MOST_PACKED
    }

    /// A square atlas `side` pixels on a side, empty.
    pub fn new(side: u32) -> (atlas: Self)
        requires
            0 < side,
            side * side <= i32::MAX,
        ensures
            atlas.wf(),
            atlas@.side == side,
            atlas@.pixels == Seq::new((side * side) as nat, |i: int| 0u8),
            atlas@.dirty is None,
            atlas@.packed == Set::<(int, int, int, int)>::empty(),
    {
        assert(side <= u16::MAX) by (nonlinear_arith)
            requires
                0 < side,
                side * side <= i32::MAX,
        ;
        let pixels = vec![0u8; (side * side) as usize];
        let atlas = Atlas {
            allocator: new_allocator(side as i32, side as i32),
            pixels,
            side,
            dirty: None,
            count: 0,
        };
        assert(atlas@.pixels =~= Seq::new((side * side) as nat, |i: int| 0u8));
        atlas
    }

    pub fn side(&self) -> (side: u32)
        ensures
            side == self@.side,
    {
        self.side
    }

    pub fn pixels(&self) -> (pixels: &[u8])
        ensures
            pixels@ == self@.pixels,
    {
        self.pixels.as_slice()
    }

    /// Packs one mask, or `None` when the atlas is full.
    ///
    /// Full is a real state and not an error: the caller's answer is to drop
    /// the glyph for this frame rather than to fail the frame, and a bigger
    /// atlas next time. A mask too big for any atlas, one shorter than its
    /// own size, and any once `MOST_PACKED` have been packed are refused the
    /// same way.
    pub fn add(&mut self, width: u32, height: u32, mask: &[u8]) -> (slot: Option<AtlasSlot>)
        requires
            old(self).wf(),
        ensures
            final(self).wf(),
            added(old(self)@, width as int, height as int, mask@, slot, final(self)@),
    {
        if width == 0 || height == 0 {
            // A space has no shape. It still has an advance, which is the
            // caller's business, but there is nothing to pack.
            return Some(AtlasSlot { x: 0, y: 0, width: 0, height: 0 });
        }
        if width >= 0xffff || height >= 0xffff {
            return None;
        }
        assert((width as u64) * (height as u64) <= u64::MAX) by (nonlinear_arith)
            requires
                width < 0xffff,
                height < 0xffff,
        ;
        if (mask.len() as u64) < (width as u64) * (height as u64) || self.count >= MOST_PACKED {
            return None;
        }
        proof {
            assert(self.side <= LARGEST_SIDE) by (nonlinear_arith)
                requires
                    0 < self.side,
                    self.side * self.side <= i32::MAX,
            ;
        }
        // A pixel of padding, so that filtering at the edge of one glyph
        // cannot reach into the next one and leave a faint smear beside it.
        let found = allocate(&mut self.allocator, width as i32 + 1, height as i32 + 1);
        let (x0, y0, x1, y1) = match found {
            Some(corners) => corners,
            None => return None,
        };
        let ghost r = (x0 as int, y0 as int, x1 as int, y1 as int);
        proof {
            lemma_new_rectangle_counts(old(self)@.packed, r);
        }
        self.count = self.count + 1;
        let (x, y) = (x0 as u32, y0 as u32);
        let side = self.side;
        proof {
            assert(((y + height) as int) * (side as int) <= (side as int) * (side as int)) by (nonlinear_arith)
                requires
                    y + height < side,
                    side > 0,
            ;
        }
        let ghost packed = self@.packed;
        copy_mask(&mut self.pixels, side, x, y, width, height, mask);
        self.mark_dirty(x, y, width, height);
        let slot = AtlasSlot { x, y, width, height };
        proof {
            assert(covers(r, padded(slot)));
            assert(forall|q: (int, int, int, int)| old(self)@.packed.contains(q) ==> apart(r, q));
            assert(self@.packed == old(self)@.packed.insert(r));
            assert(drawn(old(self)@.pixels, self@.pixels, old(self)@.side, slot.x as int, slot.y as int, width as int, height as int, mask@));
            assert(self@.dirty == grown(old(self)@.dirty, slot.x as int, slot.y as int, width as int, height as int));
        }
        Some(slot)
    }

    fn mark_dirty(&mut self, x: u32, y: u32, width: u32, height: u32)
        requires
            x + width <= u32::MAX,
            y + height <= u32::MAX,
        ensures
            final(self)@ == (AtlasView { dirty: grown(old(self)@.dirty, x as int, y as int, width as int, height as int), ..old(self)@ }),
            final(self).wf() == old(self).wf(),
    {
        self.dirty = Some(match self.dirty {
            None => (x, y, x + width, y + height),
            Some((l, t, r, b)) => (
                if l < x { l } else { x },
                if t < y { t } else { y },
                if r > x + width { r } else { x + width },
                if b > y + height { b } else { y + height },
            ),
        });
    }

    /// The region written since this was last called, and clears it.
    pub fn take_dirty(&mut self) -> (dirty: Option<(u32, u32, u32, u32)>)
        ensures
            dirty == old(self)@.dirty,
            final(self)@ == (AtlasView { dirty: None, ..old(self)@ }),
            final(self).wf() == old(self).wf(),
    {
        self.dirty.take()
    }
}

} // verus!

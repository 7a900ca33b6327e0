//! Pictures: avatars, icons that are drawings, a character's sprite.
//!
//! Packed into one atlas and referred to by name, so that a window full of
//! icons is one texture and one draw call rather than a bind per picture.
//!
//! Deliberately not a path-keyed cache with reloading and eviction. A picture
//! is added once and kept, because everything a window draws repeatedly is
//! small and there are not many of them; a sprite sheet is added once at
//! startup and read every frame for the life of the process.

use etagere::AtlasAllocator;
use vstd::hash_map::StringHashMap;
use vstd::prelude::*;
use vstd::string::StringExecFns;

use crate::text::{
    allocate, allocations, allocator_size, apart, copy_mask, covers, drawn, grown, lemma_apart_within,
    lemma_new_rectangle_counts, new_allocator, padded, pairwise_apart, LARGEST_SIDE, MOST_PACKED,
    AtlasSlot,
};

verus! {

/// Everything drawn from pixels rather than from a colour: straight-alpha
/// RGBA, four bytes a pixel, in one square atlas.
pub struct Pictures {
    allocator: AtlasAllocator,
    pixels: Vec<u8>,
    side: u32,
    dirty: Option<(u32, u32, u32, u32)>,
    by_name: StringHashMap<AtlasSlot>,
    /// How many pictures have been packed.
    count: u32,
}

/// The pictures as a value.
pub struct PicturesView {
    pub side: int,
    pub pixels: Seq<u8>,
    pub dirty: Option<(u32, u32, u32, u32)>,
    /// The rectangles packed so far, padding included.
    pub packed: Set<(int, int, int, int)>,
    /// Where each named picture is.
    pub by_name: Map<Seq<char>, AtlasSlot>,
}

impl View for Pictures {
    type V = PicturesView;

    closed spec fn view(&self) -> PicturesView {
        PicturesView {
            side: self.side as int,
            pixels: self.pixels@,
            dirty: self.dirty,
            packed: allocations(self.allocator),
            by_name: self.by_name@,
        }
    }
}

/// What adding a picture under `name` does, given what it answered.
pub open spec fn added_picture(
    before: PicturesView,
    name: Seq<char>,
    width: int,
    height: int,
    rgba: Seq<u8>,
    answer: Option<AtlasSlot>,
    after: PicturesView,
) -> bool {
    if before.by_name.contains_key(name) {
        answer == Some(before.by_name[name]) && after == before
    } else if width == 0 || height == 0 || rgba.len() < width * height * 4
        || before.packed.len() >= MOST_PACKED {
        answer is None && after == before
    } else {
        &&& (before.packed.is_empty() && width + 1 <= before.side && height + 1 <= before.side
            ==> answer is Some)
        &&& match answer {
            None => after == before,
            Some(slot) => {
                &&& slot.width == width && slot.height == height
                &&& slot.x + width + 1 <= before.side && slot.y + height + 1 <= before.side
                &&& after.side == before.side
                &&& exists|r: (int, int, int, int)| {
                    &&& covers(r, padded(slot))
                    &&& forall|q: (int, int, int, int)| before.packed.contains(q) ==> apart(r, q)
                    &&& after.packed == before.packed.insert(r)
                }
                &&& drawn(
                    before.pixels,
                    after.pixels,
                    before.side * 4,
                    slot.x * 4,
                    slot.y as int,
                    width * 4,
                    height,
                    rgba,
                )
                &&& after.dirty == grown(before.dirty, slot.x as int, slot.y as int, width, height)
                &&& after.by_name == before.by_name.insert(name, slot)
            },
        }
    }
}

/// How the pixels of a decoded image are laid out.
#[derive(Debug, Clone, Copy, PartialEq, Eq)]
pub enum Channels {
    /// Red, green, blue and alpha, a byte each.
    Rgba,
    /// Red, green and blue, a byte each, and no alpha.
    Rgb,
    /// Anything else -- palettes, greyscale, sixteen bits -- which would need
    /// expanding by the decoder first.
    Other,
}

/// Three-byte pixels with an opaque alpha byte put after each one; a partial
/// pixel at the end is left out.
pub open spec fn with_opaque_alpha(rgb: Seq<u8>) -> Seq<u8> {
    Seq::new(
        ((rgb.len() / 3) * 4) as nat,
        |i: int| if i % 4 == 3 { 255u8 } else { rgb[(i / 4) * 3 + i % 4] },
    )
}

/// A decoded image's pixels as straight-alpha RGBA: as they are when they
/// already are, with every pixel made opaque when there is no alpha, and
/// `None` for any other layout -- refused rather than guessed at, so that a
/// picture that does not appear says why.
pub fn to_rgba(channels: Channels, pixels: &[u8]) -> (rgba: Option<Vec<u8>>)
    ensures
        channels == Channels::Rgba ==> (rgba matches Some(v) && v@ == pixels@),
        channels == Channels::Rgb ==> (rgba matches Some(v) && v@ == with_opaque_alpha(pixels@)),
        channels == Channels::Other ==> rgba is None,
{
    match channels {
        Channels::Rgba => {
            let mut out: Vec<u8> = Vec::new();
            let mut i: usize = 0;
            while i < pixels.len()
                invariant
                    i <= pixels@.len(),
                    out@ == pixels@.subrange(0, i as int),
                decreases pixels@.len() - i,
            {
                out.push(pixels[i]);
                i = i + 1;
                assert(out@ =~= pixels@.subrange(0, i as int));
            }
            assert(pixels@.subrange(0, pixels@.len() as int) =~= pixels@);
            Some(out)
        },
        Channels::Rgb => {
            let whole = pixels.len() / 3;
            let mut out: Vec<u8> = Vec::new();
            let mut p: usize = 0;
            while p < whole
                invariant
                    whole == pixels@.len() / 3,
                    pixels@.len() <= usize::MAX,
                    p <= whole,
                    out@.len() == p * 4,
                    forall|i: int| 0 <= i < out@.len() ==> #[trigger] out@[i] == with_opaque_alpha(pixels@)[i],
                decreases whole - p,
            {
                proof {
                    assert(p * 3 + 3 <= pixels@.len()) by (nonlinear_arith)
                        requires
                            p < whole,
                            whole == pixels@.len() / 3,
                    ;
                    assert(p * 4 + 4 <= whole * 4) by (nonlinear_arith)
                        requires
                            p < whole,
                    ;
                }
                let ghost before = out@;
                out.push(pixels[p * 3]);
                out.push(pixels[p * 3 + 1]);
                out.push(pixels[p * 3 + 2]);
                out.push(255u8);
                proof {
                    let want = with_opaque_alpha(pixels@);
                    assert forall|i: int| 0 <= i < out@.len() implies #[trigger] out@[i] == want[i] by {
                        if i >= p * 4 {
                            let k = i - p * 4;
                            assert((i / 4) == p && i % 4 == k) by (nonlinear_arith)
                                requires
                                    0 <= k < 4,
                                    i == p * 4 + k,
                            ;
                        } else {
                            assert(out@[i] == before[i]);
                        }
                    }
                }
                p = p + 1;
            }
            assert(out@ =~= with_opaque_alpha(pixels@));
            Some(out)
        },
        Channels::Other => None,
    }
}

/// What decoding a PNG file's bytes gives, as `png::Decoder` reads it with
/// no transformations: the width and height, the colour type by PNG's own
/// code for it, the bits a sample, and the pixels; or nothing when the bytes
/// are not a PNG it can read.
pub uninterp spec fn decoded_png(png: Seq<u8>) -> Option<(u32, u32, u8, u8, Seq<u8>)>;

/// `png::Decoder::new(..).read_info()` and `next_frame`, on bytes in memory.
///
/// Trusted: the result is the named `decoded_png` of the bytes, the colour
/// type and bit depth by PNG's codes for them, the pixels being the frame's
/// bytes up to its own size. What the decoder makes of
/// the bytes -- which files it accepts, and the pixels it inflates them to --
/// is the decoder's and is not stated.
#[verifier::external_body]
pub(crate) fn decode_png(png: &[u8]) -> (image: Option<(u32, u32, u8, u8, Vec<u8>)>)
    ensures
        match image {
            None => decoded_png(png@) is None,
            Some((width, height, colour, depth, pixels)) => decoded_png(png@) == Some(
                (width, height, colour, depth, pixels@),
            ),
        },
{
    let mut reader = png::Decoder::new(std::io::Cursor::new(png)).read_info().ok()?;
    let mut buffer = vec![0u8; reader.output_buffer_size()?];
    let info = reader.next_frame(&mut buffer).ok()?;
    buffer.truncate(info.buffer_size());
    Some((info.width, info.height, info.color_type as u8, info.bit_depth as u8, buffer))
}

/// The layout a PNG colour type and bit depth stand for: type 6 is RGBA and
/// type 2 is RGB, when a sample is a byte; every other type, and sixteen bits
/// a sample, is one this does not expand.
pub open spec fn channels_of(colour: u8, depth: u8) -> Channels {
    if depth != 8 {
        Channels::Other
    } else if colour == 6 {
        Channels::Rgba
    } else if colour == 2 {
        Channels::Rgb
    } else {
        Channels::Other
    }
}

/// The straight-alpha RGBA pixels of a decoded image in this layout.
pub open spec fn rgba_of(channels: Channels, pixels: Seq<u8>) -> Seq<u8> {
    match channels {
        Channels::Rgba => pixels,
        Channels::Rgb => with_opaque_alpha(pixels),
        Channels::Other => Seq::empty(),
    }
}

/// What adding a PNG file's bytes under `name` does, given what it answered:
/// the picture already there, or nothing when the bytes do not decode, are
/// in a layout that is not expanded, or describe an image too large to
/// address, or else what adding its RGBA pixels does.
pub open spec fn added_png(before: PicturesView, name: Seq<char>, png: Seq<u8>, answer: Option<AtlasSlot>, after: PicturesView) -> bool {
    if before.by_name.contains_key(name) {
        answer == Some(before.by_name[name]) && after == before
    } else {
        match decoded_png(png) {
            None => answer is None && after == before,
            Some((width, height, colour, depth, pixels)) => if channels_of(colour, depth) == Channels::Other || width
                * height * 4 > u32::MAX {
                answer is None && after == before
            } else {
                added_picture(
                    before,
                    name,
                    width as int,
                    height as int,
                    rgba_of(channels_of(colour, depth), pixels),
                    answer,
                    after,
                )
            },
        }
    }
}

/// Adding a name a second time hands back the picture the first time made,
/// and packs nothing: the pictures are as they were.
pub proof fn the_same_name_twice_is_the_same_picture(
    v0: PicturesView,
    name: Seq<char>,
    w1: int,
    h1: int,
    p1: Seq<u8>,
    first: AtlasSlot,
    v1: PicturesView,
    w2: int,
    h2: int,
    p2: Seq<u8>,
    second: Option<AtlasSlot>,
    v2: PicturesView,
)
    requires
        added_picture(v0, name, w1, h1, p1, Some(first), v1),
        added_picture(v1, name, w2, h2, p2, second, v2),
    ensures
        second == Some(first),
        v2 == v1,
{
    assert(v1.by_name.contains_key(name) && v1.by_name[name] == first);
}

/// Adding a picture keeps every rectangle the atlas has handed out clear of
/// every other, whatever was added and whether or not it fitted.
pub proof fn adding_keeps_every_picture_apart(
    before: PicturesView,
    name: Seq<char>,
    width: int,
    height: int,
    rgba: Seq<u8>,
    answer: Option<AtlasSlot>,
    after: PicturesView,
)
    requires
        pairwise_apart(before.packed),
        added_picture(before, name, width, height, rgba, answer, after),
    ensures
        pairwise_apart(after.packed),
{
    if after.packed != before.packed {
        let slot = answer->0;
        let r = choose|r: (int, int, int, int)| {
            &&& covers(r, padded(slot))
            &&& forall|q: (int, int, int, int)| before.packed.contains(q) ==> apart(r, q)
            &&& after.packed == before.packed.insert(r)
        };
        assert forall|p: (int, int, int, int), q: (int, int, int, int)|
            after.packed.contains(p) && after.packed.contains(q) && p != q implies apart(p, q) by {
            if p == r && !before.packed.contains(p) {
                assert(before.packed.contains(q));
            } else if q == r && !before.packed.contains(q) {
                assert(before.packed.contains(p));
                assert(apart(r, p));
            }
        }
    }
}

/// Two pictures packed one after the other under different names neither
/// overlap nor touch.
pub proof fn pictures_keep_a_gap(
    v0: PicturesView,
    n1: Seq<char>,
    w1: int,
    h1: int,
    p1: Seq<u8>,
    a: AtlasSlot,
    v1: PicturesView,
    n2: Seq<char>,
    w2: int,
    h2: int,
    p2: Seq<u8>,
    b: AtlasSlot,
    v2: PicturesView,
)
    requires
        !v0.by_name.contains_key(n1),
        !v1.by_name.contains_key(n2),
        added_picture(v0, n1, w1, h1, p1, Some(a), v1),
        added_picture(v1, n2, w2, h2, p2, Some(b), v2),
    ensures
        apart(padded(a), padded(b)),
        a.x + a.width < b.x || b.x + b.width < a.x || a.y + a.height < b.y || b.y + b.height < a.y,
{
    let r = choose|r: (int, int, int, int)| {
        &&& covers(r, padded(a))
        &&& forall|q: (int, int, int, int)| v0.packed.contains(q) ==> apart(r, q)
        &&& v1.packed == v0.packed.insert(r)
    };
    assert(v1.packed.contains(r));
    let s = choose|s: (int, int, int, int)| {
        &&& covers(s, padded(b))
        &&& forall|q: (int, int, int, int)| v1.packed.contains(q) ==> apart(s, q)
        &&& v2.packed == v1.packed.insert(s)
    };
    lemma_apart_within(s, r, padded(b), padded(a));
}

impl Pictures {
    /// The side is positive and its RGBA area fits a `u32`; the pixels are
    /// the whole square; the allocator is the same size; and the count is how
    /// many rectangles the allocator has handed out.
    pub closed spec fn wf(&self) -> bool {
        &&& 0 < self.side
        &&& self.side * self.side * 4 <= u32::MAX
        &&& self.pixels@.len() == self.side * self.side * 4
        &&& allocator_size(self.allocator) == (self.side as int, self.side as int)
        &&& allocations(self.allocator).finite()
        &&& allocations(self.allocator).len() == self.count
        &&& self.count <= MOST_PACKED
    }

    /// An empty square of `side` pixels a side.
    pub fn new(side: u32) -> (pictures: Self)
        requires
            0 < side,
            side * side * 4 <= u32::MAX,
        ensures
            pictures.wf(),
            pictures@.side == side,
            pictures@.pixels == Seq::new((side * side * 4) as nat, |i: int| 0u8),
            pictures@.dirty is None,
            pictures@.packed == Set::<(int, int, int, int)>::empty(),
            pictures@.by_name == Map::<Seq<char>, AtlasSlot>::empty(),
    {
        assert(side <= u16::MAX && side * side <= i32::MAX) by (nonlinear_arith)
            requires
                0 < side,
                side * side * 4 <= u32::MAX,
        ;
        let pixels = vec![0u8; (side * side * 4) as usize];
        let pictures = Pictures {
            allocator: new_allocator(side as i32, side as i32),
            pixels,
            side,
            dirty: None,
            by_name: StringHashMap::new(),
            count: 0,
        };
        assert(pictures@.pixels =~= Seq::new((side * side * 4) as nat, |i: int| 0u8));
        pictures
    }

    pub fn side(&self) -> (side: u32)
        ensures
            side == self@.side,
    {
        self.side
    }

    pub fn pixels(&self) -> (pixels: &[u8])
        ensures
            pixels@ == self@.pixels,
    {
        self.pixels.as_slice()
    }

    /// The region written since this was last called, and clears it.
    pub fn take_dirty(&mut self) -> (dirty: Option<(u32, u32, u32, u32)>)
        ensures
            dirty == old(self)@.dirty,
            final(self)@ == (PicturesView { dirty: None, ..old(self)@ }),
            final(self).wf() == old(self).wf(),
    {
        self.dirty.take()
    }

    /// A picture that has already been added.
    pub fn get(&self, name: &str) -> (slot: Option<AtlasSlot>)
        ensures
            slot == (if self@.by_name.contains_key(name@) { Some(self@.by_name[name@]) } else { None }),
    {
        match self.by_name.get(name) {
            Some(slot) => Some(*slot),
            None => None,
        }
    }

    /// Adds straight-alpha RGBA pixels under a name, or returns the one
    /// already there.
    ///
    /// `None` when the atlas is full. Full is a real state rather than an
    /// error: the caller draws without that picture for now and asks for a
    /// bigger atlas, instead of losing the frame. An atlas holding
    /// `MOST_PACKED` pictures is full.
    pub fn add(&mut self, name: &str, width: u32, height: u32, rgba: &[u8]) -> (slot: Option<AtlasSlot>)
        requires
            old(self).wf(),
            !old(self)@.by_name.contains_key(name@) ==> width * height * 4 <= u32::MAX,
        ensures
            final(self).wf(),
            added_picture(old(self)@, name@, width as int, height as int, rgba@, slot, final(self)@),
    {
        if let Some(already) = self.by_name.get(name) {
            return Some(*already);
        }
        if width == 0 || height == 0 || rgba.len() < (width * height * 4) as usize {
            return None;
        }
        if self.count >= MOST_PACKED {
            return None;
        }
        assert(width < i32::MAX && height < i32::MAX) by (nonlinear_arith)
            requires
                width > 0,
                height > 0,
                width * height * 4 <= u32::MAX,
        ;
        proof {
            assert(self.side <= LARGEST_SIDE) by (nonlinear_arith)
                requires
                    0 < self.side,
                    self.side * self.side * 4 <= u32::MAX,
            ;
        }
        // A pixel of padding, so that filtering at the edge of one picture
        // cannot reach into the next and leave a smear along its side.
        let found = allocate(&mut self.allocator, width as i32 + 1, height as i32 + 1);
        let (x0, y0, x1, y1) = match found {
            Some(corners) => corners,
            None => return None,
        };
        let ghost r = (x0 as int, y0 as int, x1 as int, y1 as int);
        proof {
            lemma_new_rectangle_counts(old(self)@.packed, r);
        }
        self.count = self.count + 1;
        let (x, y) = (x0 as u32, y0 as u32);
        let side = self.side;
        proof {
            assert(((y + height) as int) * (side as int * 4) <= (side as int) * (side as int) * 4)
                by (nonlinear_arith)
                requires
                    y + height < side,
                    side > 0,
            ;
            assert((width as int * 4) * height <= width as int * height as int * 4) by (nonlinear_arith);
            assert(side as int * 4 <= (side as int) * (side as int) * 4) by (nonlinear_arith)
                requires
                    side > 0,
            ;
        }
        let ghost packed = self@.packed;
        copy_mask(&mut self.pixels, side * 4, x * 4, y, width * 4, height, rgba);
        self.dirty = Some(match self.dirty {
            None => (x, y, x + width, y + height),
            Some((l, t, r, b)) => (
                if l < x { l } else { x },
                if t < y { t } else { y },
                if r > x + width { r } else { x + width },
                if b > y + height { b } else { y + height },
            ),
        });
        let slot = AtlasSlot { x, y, width, height };
        self.by_name.insert(String::from_str(name), slot);
        proof {
            assert(covers(r, padded(slot)));
        }
        Some(slot)
    }

    /// Adds a PNG file's bytes under a name, or returns the picture already
    /// there.
    ///
    /// The name is the caller's, not the file's: two files can be the same
    /// picture and one file can be replaced underneath a running process.
    /// Palettes, greyscale and the rest are refused rather than guessed at, so
    /// a picture that does not appear says why.
    pub fn add_png(&mut self, name: &str, png: &[u8]) -> (slot: Option<AtlasSlot>)
        requires
            old(self).wf(),
        ensures
            final(self).wf(),
            added_png(old(self)@, name@, png@, slot, final(self)@),
    {
        if let Some(already) = self.by_name.get(name) {
            return Some(*already);
        }
        let (width, height, colour, depth, pixels) = match decode_png(png) {
            Some(image) => image,
            None => return None,
        };
        let channels = if depth != 8 {
            Channels::Other
        } else if colour == 6 {
            Channels::Rgba
        } else if colour == 2 {
            Channels::Rgb
        } else {
            Channels::Other
        };
        assert((width as u128) * (height as u128) * 4 <= u128::MAX) by (nonlinear_arith)
            requires
                width <= u32::MAX,
                height <= u32::MAX,
        ;
        if (width as u128) * (height as u128) * 4 > u32::MAX as u128 {
            return None;
        }
        let rgba = match to_rgba(channels, pixels.as_slice()) {
            Some(rgba) => rgba,
            None => return None,
        };
        self.add(name, width, height, rgba.as_slice())
    }
}

} // verus!

# wisp

A user interface toolkit for windows that are not rectangles somebody gave
you: transparent, always on top, click-through wherever nothing is drawn.

The crate in `src/` is the part that decides things, written in Verus and
proved against its contracts:

| module | what it decides |
|---|---|
| `editor` | what an editable field does with every key: grapheme-aware backspace and delete, word jumps, selections, input-method composition |
| `segment` | the searches an editor runs over grapheme clusters and word bounds (the segmentation itself is `unicode-segmentation`'s) |
| `ui` | which field has the keyboard, what queued input does to it, what a click is, which box the pointer is over |
| `text`, `pictures` | packing glyphs and pictures into an atlas (the packing is `etagere`'s), decoding PNG bytes into RGBA (the decoding is `png`'s), copying pixels in, and the region to upload |
| `geometry` | points, sizes and rectangles over any unit whose arithmetic is specified |
| `selftest` | the overlay self-check as a state machine: which question each step asks and what to do with the answer |
| `snapshot`, `renderer` | row padding for reading a frame back, and how the GPU buffers grow |
| `input`, `element`, `theme`, `overlay` | the plain values the rest is described in |

Alongside the contracts, `src/` proves the properties the toolkit promises:
typing lands at the caret, backspace over a selection takes the selection and
no more, backspace at a grapheme boundary takes exactly the grapheme before it, composing never touches the document, a newline field never submits,
a click is a press and a release on the same box, packed glyphs never touch,
a name added twice is the same picture, and so on.

`app/` is the rest: lengths and colours in `f32`, the display list, shaping
with `cosmic-text`, layout with `taffy`, the `wgpu` renderer, the `winit`
window and the macOS overlay, calling into the library for every decision.

# qrcode2

QR code, Micro QR code and rMQR code encoding, written in Verus: the
executable code carries `requires`/`ensures` contracts that Verus proves.

## Layout

- `src/types` — versions (QR, Micro QR, rMQR), error correction levels,
  encoding modes and colors, with their tables and orderings.
- `src/bits` — the bit stream: mode indicators, character counts, numeric,
  alphanumeric, byte, Kanji, ECI and FNC1 segments, the terminator and
  padding, and the choice of the smallest version that holds the data.
- `src/optimize` — splitting data into segments: the parser of character
  classes, the greedy optimizer and the optimal (dynamic programming) one.
- `src/ec` — Reed–Solomon error correction over GF(256), the split of the
  data into blocks with their codes (`construct_codewords`), block
  interleaving and the number of correctable errors.
- `src/canvas` — the module grid: functional module detection, masks, format
  information, the rMQR corner finder pattern, placement of codewords,
  penalty scores and the choice of the best mask.
- `src/render` — the renderer and its canvases: strings, UTF-8 half blocks,
  braille, PIC and SVG.
- `app` — the error type with `Display` and `std::error::Error`.
- `tests` — the test suite.

Each module states its results over spec functions (the bits pushed, the
segments chosen, the modules drawn, the characters of an image), and the
proof functions named `lemma_*` that are public state the laws that tie the
operations together, such as the optimality of the segmentation or the
choice of the mask with the lowest penalty.

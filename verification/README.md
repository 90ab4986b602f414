# texture_manager

Texture tools for Geometry Dash sprite sheets: planning the tools' runs,
finding sheets and game folders, packing and splitting atlases, icon and
Geode-button frame rules, glow and outline image passes, and the reports the
tools give back.

The library under `src/` is written in Verus: every function carries a
contract, and Verus proves each body against it. The laws that relate
several functions are proof functions (`src/laws.rs` and beside the
functions they concern).

- `src/` — the verified library, one module per concern (paths and facts
  about folders, sheet discovery, packing in `merger`, the integer image
  passes in `image_alpha`, `glow_alpha`, `ink_finish`, `outline_aa`,
  `regions`, `contours`, `holes`, the frame-name rules, the run plans).
  Property lists are held as `plist_tree::PlistNode`; on them stand the
  sheet renaming (`plist_tree`), the merge plan and the rewrite of a merged
  sheet's list (`merge_sheet`), the removal of extra frames
  (`sheet_edits`), the list of a legacy sheet left after its icons moved out
  (`leftover_sheet`), and the cut of a frame out of its atlas
  (`frame_crop`). `fallback_pairs` pairs a lone input `.png` with the
  game's own `.plist`. `convert_atlas` does the atlas work of converting a
  pack to the newest game: copying the frames it lacks, adding their sprites
  in a band below the atlas, and painting replacements into existing slots.
- `tests/` — tests of the library on concrete values.
- `app/` — the command-line front end: file and image I/O, the environment,
  and the floating-point image steps, around the library.

Outside crates: `sha2` (sheet hashes), `regex` (Geode circle frames),
`base64` (PNG data URLs), `rand` (random preview picks) and `image`
(drawing one image over another with alpha blending) are called from the
library through small trusted wrappers; `image`, `plist`, `serde` and
`serde_json` also serve the front end.

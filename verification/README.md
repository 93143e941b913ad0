# PNG Metadata GUI

A desktop viewer for PNG text chunks (`tEXt`, `zTXt`, `iTXt`), built for browsing
ComfyUI and Stable Diffusion metadata. The rules of the viewer are a library
verified with [Verus](https://github.com/verus-lang/verus); the program around it
draws with egui, reads and writes files, and runs threads.

## Layout

- `src/` is the verified library.
  - `text`, `lists`, `sorting`, `rounding`, `clock`: texts, lists, stable sorting,
    the rounding of doubles in whole numbers, moments in time
  - `chunks`: the PNG header reader, as a machine that asks for bytes
  - `json`, `lenient`, `index`: JSON documents, Python-style `NaN` tokens,
    flattening into searchable rows
  - `model`: an image with its rows, and which rows a pin selects
  - `cache`, `scan`: the metadata cache of a folder, and a folder scan, as a
    machine that asks for files
  - `thumbs`, `full`, `lightbox`: thumbnails and their eviction, decode sizes and
    refusals, image windows
  - `pins`, `table`, `controls`, `viewer`, `tree`, `labels`: pins, filtering and
    sorting, user actions, the viewer's state, the metadata tree, short texts
  - `icon`: the application icon's file format
- `tests/` runs the library.
- `app/` is the program: `png-metadata-gui [folder or file]`,
  `--dump <files>` and `--icon-forge <input.svg> <out_dir> [name]`.

## What is proved

Each function states what it returns for every input it accepts. Public proof
functions state what holds of several functions together, among them:

- a file made of chunks gives back its dimensions and texts (`chunks`)
- the tree of a searched document shows exactly the values that the search finds,
  and a chunk has a section exactly when its name or a value of its own answers
  (`tree`)
- replacing `NaN` tokens leaves string literals alone and leaves no token behind
  (`lenient`)
- a cached record serves until its file's size or time changes, and a scan opens no
  file that such a record serves (`cache`, `scan`)
- a cache whose JSON is read as it was written comes back for its own folder and for
  no other (`cache`)
- a scan announces its files, reports each of them once and in order, and ends; after
  a refused report nothing more comes and nothing is stored (`scan`)
- a decoded size stays within the texture side and the pixel budget, never enlarges
  an image, and is transposed with it (`full`)
- what was drawn last is evicted last (`thumbs`)

Calls into `std`, `chrono`, `flate2` and `serde_json` stand behind small functions
whose contracts are believed; each says so where it is declared.

# dho_vault

A verified library for reading the image resources of the DHO game client: the MWC data
files and their indexes, the reviewed catalog that names each record, the assembly of tiled
images, thumbnails and PNG export, installation snapshots, and the viewer and curator
sessions built on them. Every function in `src/` carries a contract that Verus proves.

Layout:

- `src/` — the library. `block`, `index`, `inline` and `archive` read the file formats;
  `catalog` holds the reviewed rules; `rgba` and `extract` decode and assemble images;
  `snapshot`, `baseline` and `installation` describe an installation; `cache`, `client`,
  `search`, `session`, `export` and `curator` answer the viewer's and the curator's requests;
  `text` and `messages` handle text and the messages shown to the user.
- `tests/` — the tests, run against the compiled library.
- `app/` — a command-line program around the library: reading and writing files, and
  printing results.

The outside crates are called only behind a few `external_body` wrappers (zlib inflation,
PNG encoding, image resizing, base64); the laws of the library are the public `lemma_*`
proof functions.

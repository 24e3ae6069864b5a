# tile_packer

Packs a folder of sprite sheets into one texture atlas. Each image is sliced
into a grid of tiles whose size comes from the first matching spec of the
settings (by stem, full file name or regular expression) or from the default
size; the images are ordered tallest tile first, then by name and path, so
the atlas does not depend on the order in which the folder lists them, and
their tiles are shelf-packed into rows `atlas_width` pixels wide.

Layout:

- `src/` — the verified library (Verus): the configuration and atlas types,
  file-name handling, spec matching, the packing order, the order of the
  source stamps that are fingerprinted, and the shelf packer that places
  every tile and copies its pixels into the atlas image. Contracts state
  exact results; proof functions state the laws (tallest first, independence
  from the listing order, tiles within the atlas width, every atlas pixel
  showing the last tile copied onto it, sorted entries).
- `app/` — the filesystem front end: JSON settings and atlas files (serde),
  reading folders and decoding images, writing the packed image, and the
  incremental build, which reads the stamps of the sources for the library
  to fingerprint.
- `tests/` — tests of the library.

Scope: images are taken from the top level of the source folder and keyed by
file stem, and specs match file names. Folder recursion (`recurse`), keys
made of relative paths and `full_key` identifiers are not supported.

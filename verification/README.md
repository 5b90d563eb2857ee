# reliquary_bdmv

A verified library for the structure of Blu-ray discs.

It parses the binary files of the `BDMV` directory, runs the HDMV programs of
menus to find out what they play, decrypts AACS units with known keys, and draws
up an inventory of a disc. Every function of the library has a contract that
Verus proves; the calls into the `aes`, `cbc` and `sha1` crates and into
`String::from_utf8_lossy` are the only ones that are trusted.

## Layout

- `src/` is the library.
  - `cursor`, `text`, `seqs`, `lossy`: reading bytes, writing text, searching
    and sorting sequences.
  - `mobj`, `ig`, `clpi`, `index`, `mpls`, `nav`: the files and their contents.
    `mobj` also holds the machine (`vm`) and the ways to resolve menu buttons
    (`resolve`, `every_page`, `trace`).
  - `analysis`, `disc`, `report`, `inventory`: what a disc offers.
  - `crypto`, `aacs`, `keydb`, `reader`: keys and encrypted clips.
- `tests/` runs the library.
- `app/` reads mounted discs and key databases, and holds copies of the results
  that can be serialised.

Lengths are counted in ticks of the 45 kHz playlist clock. Laws that relate
several functions are public proof functions whose names start with `law_`.

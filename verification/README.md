# Great Extractor

Finds files that are embedded in arbitrary binary data, works out where each of
them ends, and takes them out. The library is written in Rust and verified with
Verus: every function states in its contract what it returns, and the proofs are
checked along with the code.

## What is proved

- Each structural validator computes exactly the extent that its format defines
  (`archives`, `documents`, `executables`, `games`, `images`, `media`); its end
  lies inside the data and its confidence is between 55 and 95 percent
  (`extent_laws`).
- A file is recognised wherever it stands (`relocation`). One that marks its own
  end is recognised whatever follows it (`prolongation`), and a scan finds it there
  (`embedding`).
- A scan finds every occurrence of every signature and nothing else, in order,
  however the data are divided among threads (`scanner`, `scan_laws`).
- An extraction stays within its limits and misses nothing unless it says so, and
  a dry run comes to the same as a real one (`extractor`).
- Listings, facts, reports and the state of the browser are exact functions of
  their inputs (`listing`, `facts`, `output`, `reports`, `tui`, `views`, `popups`);
  a text in UTF-8 or UTF-16 is shown as it was written (`views`).
- A picture that is decoded for a preview keeps within its limits (`picture`).
- A valid file of the formats that are both validated and listed by a walk over
  its entries can be listed if it has an entry; AR, CPIO, WAD and PAK archives
  are named after their first entry (`listing_laws`).

## What is trusted

The crates that do the outside work are called through small wrappers with
contracts of their own: `memchr` (`search`), `flate2` (`inflate`), `goblin`
(`goblin_model`), `serde_json` (`json`), `aho-corasick` (`automaton`), `image`
(`picture`), `csv` and `comfy-table` (`reports`), and a few functions of the
standard library (`text`, `automaton`).

## Layout

- `src/` is the verified library.
- `app/` is the program `greatie`: arguments, files, threads, the terminal, and
  what needs floating point.
- `tests/` runs the library on small files of each format.

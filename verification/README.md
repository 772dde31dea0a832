# rumbaa

Mathematical-structure analysis of LaTeX documents: theorems, lemmas,
definitions and their proofs are collected from the sources, linked through
the references that the proofs make, and drawn as a dependency graph.

## Layout

- `src/` — the verified library (Verus):
  - `strutil` — string helpers with their specifications (search, replace,
    split, decimal notation);
  - `texstruct` — macros, theorems and proofs;
  - `document` — the collection of labelled structures and the dependency
    queries on it;
  - `envparser` — the environment tracker that turns macros into structures;
  - `texparser`, `texparser2` — two character-level macro parsers;
  - `texregex` — the regular expressions of the project, matched by the
    `regex` crate, with their meaning stated;
  - `preprocessing` — comment removal and `\input` / `\include` handling,
    line by line;
  - `auxparser` — numbers, pages and names read from `.aux` files;
  - `visualize`, `visualize2` — the JSON and HTML renderings of the graph.
- `tests/` — tests of the library.
- `app/` — the command line program: argument handling, logging, file
  reading and writing around the library.

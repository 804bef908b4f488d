# tbr

The core of a terminal and graphical e-book reader, written in Verus: Verus verifies every
function in `src/`, each against its contract (a constructor of a type with no fields has
nothing to state, and states nothing).

- `src/` is the library: lines and their styles (`book`), plain text and character widths
  (`common`), the reading state, trace and highlights (`controller`), laying text out
  horizontally (`xi`) and vertically (`han`), containers and loaders, Haodoo PDB books
  (`haodoo`), EPUB packages and tables of contents (`package`, `epub`), XHTML and HTML
  document trees (`xhtml`, `dom`, `html_parser`), searching (`search`), dictionary
  definitions (`dict`), settings and history (`config`), and the decisions of the
  terminal and graphical views.
- `tests/` runs the library on concrete books, documents and screens.
- `app/` is a small command line reader built on the library: it reads a text or Haodoo
  book, optionally from a zip archive, lays one screen out and prints it with a status
  line.

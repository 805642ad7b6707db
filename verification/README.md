# cheese_paper

The core of a prose-writing tool, verified with Verus. A project is a folder of plain
files: `text/` (folders and scenes), `characters/` and `worldbuilding/`, each object a
TOML header (a markdown body follows it for scenes) whose file name carries its place
among its siblings (`003-a_scene.md`).

`src/` is the verified library:

- `text`, `markdown`, `highlight`: string helpers (characters and UTF-8 offsets), the tiny
  markdown parser and the styled runs of the editor.
- `naming`, `schema`, `regex_ops`: file names from object names and indexes, file types.
- `metadata`, `loading`, `saving`: reading the metadata headers, and what saving writes:
  the entries each kind of object sets, the header read from the file with those entries
  set (through `toml_edit`, keeping the rest of the header as written) and the file text.
- `objects`: which metadata each file type loads, and which files loading takes.
- `reference`: references between objects and how they are resolved.
- `compile`, `export`, `outlines`: what the story export and the outline contain.
- `tree`, `indexing`, `events`: the loaded objects as a tree, keeping children numbered,
  and what to do about changes seen on disk.
- `search`, `textbox`, `textboxes`: text blocks, the text boxes of each kind of object,
  and searching them.
- `references`: the objects of each file type that a reference can be chosen from.
- `dictionary`: the spelling dictionary of a project (ignored words, names of characters
  and places), around the `spellbook` crate.
- `editor_data`: what the editor remembers between runs (recent projects, open pages).
- `filetree`, `tabs`, `metrics`: decisions of the editor's file tree, tabs and focus
  cycling, and frame timing.

`app/` is a command-line front end that creates projects, loads a project from disk and
prints its story export or outline, searches it, saves it back, creates, moves or deletes
objects in it, or watches its folder and keeps the loaded project up to date with changes
on disk. `tests/` holds the tests.

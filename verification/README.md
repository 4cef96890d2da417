# grr

Two small tools around GNOME Evolution and GObject introspection, with their
logic verified by Verus.

* `grr` reads a YAML description of GObject libraries (classes, interfaces,
  records, properties, fields, methods), fills in what can be derived
  (parent and private fields, property getters and setters, C names and C
  types), and writes one GIR file per library.
* The Evolution composer extension reduces repeated `Re:`/`Fwd:` prefixes in
  a subject to the first one, and increments a depth counter on that first
  prefix, such as `Re[1]:` to `Re[2]:`; counters on later prefixes go with
  them. The prefixes reduced are `Re:` and `Fwd:` (Unix tradition), `RE:`
  and `FW:` (Outlook in English) and `AW:` and `WG:` (Outlook in German); a
  prefix word counts only at the start of the subject or after a character
  that is no word character, so `LAW:` is left alone. The subject of a
  message is rewritten once, on the first change.

## Layout

* `src/` is the verified library.
  * `model` — the document model and its views.
  * `realize` — parent and private fields, property accessors.
  * `collect`, `database`, `order` — the type database: which C type each
    library type maps to and back, kept in key order.
  * `enrich` — resolving type names to C types throughout a document.
  * `naming`, `stringing`, `text` — string helpers (`PascalCase` to
    `snake_case`, splitting at the last occurrence of a character).
  * `json` — reading and writing types and parameters as JSON-like values.
  * `gir` — the GIR tree of a library; `xml_out` hands it to `xot`, with
    what each `xot` call adds stated over a model of the arena.
  * `subject` — the subject prefix reduction.
  * `fold` — processing a sequence in order up to the first error, which
    type collection and enrichment are stated with.
* `tests/` runs the library on concrete values.
* `app/` is the `grr` program (argument handling, YAML and file I/O, serde
  glue) and the GObject glue of the Evolution extension.

# extended_ui

The core of an HTML/CSS driven widget toolkit, written in Verus: every
function in `src/` carries a contract that Verus proves.

- `text`, `json`, `expr`, `render`, `uses`, `context`: the template language
  (placeholders, expressions, `@if` / `@for` / `@use` directives).
- `attrs`, `widgets`, `convert`, `components`, `elements`: attribute and
  widget parsers, identifier pools, and the builders that turn an element
  into a widget.
- `tree`, `document`: the widget tree of an HTML fragment or document,
  stated at every depth, with its stable identifiers.
- `html`, `builder`, `reload`: binding profiles, rebuild decisions and which
  sources are parsed again.
- `style`, `providers`, `registry`, `keyed`: selector rules, style
  providers, the source registry and a string-keyed map.

The HTML parser (`kuchiki`) and a few standard-library calls stand behind
trusted wrappers whose contracts say what the outside code does.

`app/` holds what stays outside the proofs: process-wide identifier pools,
file-system checks, JSON text through `serde_json`, and the widgets whose
settings are floating point. `tests/` runs the library on concrete inputs.

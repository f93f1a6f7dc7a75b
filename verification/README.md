# sweetpad_core

Verified core of an Xcode project toolkit, written in Verus.

- `src/` — the library. Its functions carry contracts that Verus proves, except
  the small `external_body` wrappers around `std::path`, `str`, `String` and
  `roxmltree` calls, whose contracts are believed:
  - `workspace` — reading `.xcworkspace` descriptions: location prefixes,
    referenced projects in declaration order, shared and merged schemes.
  - `xcode` — the active Xcode install: Developer directory choice,
    `version.plist` values, major and product build versions.
  - `json`, `render`, `settings` — the reports the command line prints
    (plain text and JSON), and the decisions of a build-settings search.
  - `element`, `text`, `order`, `path` — the XML element model and the
    reading of a document's text into it, character
    and ordering helpers, and file-system paths (joined, split and tested
    by `std::path`).
  - `bindings` — plain records for an embedding host.
- `app/` — the `sweetpad` command line: argument parsing, reading files and
  running `xcode-select`, then printing what the library renders.
- `tests/` — tests of the library on concrete values.

The workspace reader parses `contents.xcworkspacedata` with `roxmltree`,
in place of a dedicated XML reader for Xcode's files. `roxmltree` reports tag
and attribute names without namespace prefixes, leaves out `xmlns`
declarations and refuses documents with a DTD; Xcode's workspace files use
none of these.

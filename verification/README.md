# pseudoscript

A verified library for the PseudoScript architecture-modelling language:
lexing and parsing, the static checks over one module or a workspace, the
relationship graph and its architecture lints, dependency manifests, the
sequence-diagram layout engine, and the editor services (completion,
find-references and highlights, go-to-definition resolution, outline,
folding ranges, semantic tokens).

Every function in `src/` carries a contract that Verus proves; the public
proof functions named `law_*` and `lemma_*` state properties that span
several calls (round trips, order independence, idempotence, agreement
between per-module and workspace diagnostics over the same parsed modules).

The lexer is specified exactly. The parser's contract is partial: it states
that parsing terminates, that every diagnostic is an error inside the
source, which malformed module starts owe a diagnostic, the head of the
first declaration, that every name, path, expression and block of the tree
lies within the source, and, for a module made of plain declarations
(`system S;`, `container C for a::S { f(a: T): R; }`,
`data D { id: uuid }`, `data U = | A | B`, `constant N = 3`, each after
optional `///` lines), the exact items and that no diagnostic is reported
(`parsed_from`, `diags_owed`). It does not state the whole grammar, so the
services built on a parse (checks, outline, folding, semantic tokens) are
specified over any syntax tree that meets those facts, and exactly over
the tree they are given where they take one.

`app/` holds the filesystem and TOML edge: finding a workspace root,
walking its `.pds` files, and reading `pds.toml`, `pds.lock` and the
dependency modules they name.

Layout:

- `src/lexer.rs`, `src/parser.rs`, `src/ast.rs`, `src/token.rs`: the front end;
  the lexer's output is specified exactly by `lex_tokens`.
- `src/model/`: symbol tables, checks, graph, resolution, type inference,
  folding, semantic tokens, dependency manifests.
- `src/layout/`: text metrics and the sequence-diagram layout.
- `src/complete.rs`, `src/refs.rs`, `src/outline.rs`: editor services.
- `tests/`: executable tests of the library.
- `app/`: the filesystem and TOML edge (not verified).

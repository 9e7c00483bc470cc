# sem

Semantic views of a git repository: which entities call which, how a
function's callers match its parameters, who last touched each entity,
how an entity's history reads, and what context fits a token budget.

`src/` is the library, verified with Verus:

- `text`, `numbers`, `date`, `paths`, `lexical`: text, integers, dates and
  paths, each function against a specification of what it computes.
- `model`, `context`, `hotspot`, `listing`: entities and the dependency
  graph, impact sets, context packing within a token budget, the walk over
  history that finds change hotspots, and the order a graph is listed in.
- `arity`, `verify`: argument and parameter counts read from text, and the
  contract check over a graph.
- `syntax`, `params`, `calls`, `mismatch`: syntax trees from tree-sitter,
  parameter bounds per language, call sites, and the arity checks over a
  graph; what tree-sitter returns is named and the rest is proved.
- `blame`, `history`, `diffview`, `files`, `workflow`: the decisions of the
  blame, log and graph commands.
- `cache`, `store`: where the on-disk cache lives and when its rows may be
  used, rewritten or dropped.

`app/` is the command line around it: argument handling, git, the file
system and SQLite, printing, and JSON.

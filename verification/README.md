# parser

The front end of an entity-component-system engine's code generator. The
library holds the decisions of that front end as functions on plain data:
how a module's source is read into a tree of modules and kept items, how
that tree is numbered into a crate's module list, how paths written in a
module resolve across crates, how a module's `use`
items are made local, how systems' arguments and entity-set declarations are
checked, how label conditions are simplified, how crates name each other in
generated code, and what fields and variants the generated managers hold.

- `src/` is the library, verified with Verus:
  - `parse/`: module sources (parsed with `syn`) and module trees, crates
    and modules, `use` items and symbols, path resolution
    (also within a bound on the number of steps), attributes and `cfg`
    predicates, tokens, manifests.
  - `component_set/`: the entity-set grammar (a parser over tokens), label
    expressions, their negation and simplification, their resolution to
    components, and how an entity set's keys and a system's sets are built.
  - `resolve/`: the items that engine macros declare in a module
    (components, globals, events, states, systems), system arguments and
    their checks, items, macro calls, error lists, the names of generated
    fields.
  - `codegen/`: the paths between crates and whether the dependency graph is
    acyclic, the order in which crates are generated, how a system is built
    from its arguments and how it is called, label sets of systems, which
    systems the manager runs at start and on events, the fields and variants
    of the entry crate's managers and of the event manager.
- `app/` holds what reads the disk (module files, manifests) or takes `syn`
  and `proc_macro2` values, hands plain data to the library, runs reading
  and resolution over all crates in turn, and renders the plans as tokens.
- `tests/` runs the library on concrete inputs.

Some pieces come from the engine's shared crate, which this project does not
have, and are therefore not here: how the paths of `use` items and macro calls
are read (so `use` items and macro calls are not read from
module sources, and attribute paths are looked up as written); how the
arguments of the component, global and system attributes are read (the
library takes the flag they give as an input); the engine's state
constants (a state item is found and reported, not expanded); and the trait
list that adds trait symbols.

# behaviortree_rs

Behavior trees: a tree is read from XML, its nodes share a blackboard of
typed values, and ticking the root ticks the nodes below it by the rules of
each control and decorator node.

The library in `src/` is written in Verus. Its functions are verified
against their `requires`/`ensures` contracts, except the small
`#[verifier::external_body]` wrappers that call `quick_xml` and `evalexpr`:
their contracts state what those crates do and are trusted, not proved.

- `basic_types`: node statuses and types, ports and their lists, with their
  text forms.
- `value`, `text`, `strmap`: blackboard values, the text handling the library
  needs, and a small map keyed by strings.
- `blackboard`: scopes of entries with parents, remappings and
  auto-remapping; reads, writes and typed conversion.
- `nodes`: the node data, the tree node with `execute_tick` and `halt`, and
  the built-in control nodes (`control`), decorators (`decorator`) and the
  `Condition` node (`condition`, whose expressions `evalexpr` compiles and
  evaluates).
- `node_registry`: the built-in nodes and the user's leaf nodes by name.
- `xml`, `parser`, `tree`: reading XML with `quick_xml` into events, building
  the tree from them, and ticking it.
- `scripting`: the syntax tree of scripts and the check that a script reads
  only variables it assigned and applies `-` and `!` where they apply.
  Reading script text into that tree and evaluating scripts are not part of
  this library, nor are script contexts and functions: a script is given as
  its syntax tree.

Blackboard values are integers, strings and booleans; all integer types
share one kind, and so do `&str` and `String`. Floating-point values are not
held.

The tests in `tests/` exercise the library through its public API.

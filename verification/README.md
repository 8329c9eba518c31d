# rdf_shapes

Verified building blocks for working with RDF data and shape languages
(ShEx, SHACL), written in Verus.

## Layout

- `src/term.rs`: RDF terms and subjects, their views and their text.
- `src/srdf.rs`: the interface of an RDF store (`SRDF`, `FocusRDF`), specified
  over the set of triples that a store holds.
- `src/graph.rs`: `SimpleGraph`, an in-memory store that implements it.
- `src/rdf_parser.rs`: parsers that read a store from a focus node: single
  and multiple property values, RDF lists, conditions on the focus, and the
  combinators `map`, `and_then` and `flat_map`.
- `src/prefixmap.rs`: IRI references and prefix maps (qualified names).
- `src/shex_ast.rs`: the part of the ShEx abstract syntax that the HTML
  conversion reads.
- `src/shex2html.rs`: conversion of ShEx schemas into the pages of a site,
  and the HTML text of its landing page.
- `src/shacl.rs`: SHACL constraint components and property shapes, and their
  text.
- `src/validation.rs`: the `sh:pattern`, `sh:disjoint` and `sh:lessThan`
  constraints, evaluated natively or through SPARQL ASK queries.
- `src/text.rs`: the text of numbers and booleans, and joined lists.
- `app/lib.rs`: writing a converted site to disk.
- `tests/`: tests of the library on concrete values.

Verus proves every function in `src/` against its contract (a builder with
nothing to state, such as `rdf_list`, has an empty one); the laws that relate
several functions are public proof functions whose names begin with `law_`.

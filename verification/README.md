# rbop

rbop (**R**ust **B**inary **Op**erations) is a framework for implementing intuitive mathematical
expression editors, written in Verus: its behaviour is stated in `requires` / `ensures` contracts
and proved.

## Layout

- `src/` is the verified library.
  - `node/unstructured/` holds the unstructured node tree, which is built from user input: its
    cursor navigation and editing, its layout, its serialization, and upgrading it into a
    structured tree.
  - `node/parser.rs` states the grammar of expressions and parses unstructured nodes by it.
  - `node/structured.rs` holds the structured node tree: evaluation, substitution,
    disambiguation and layout.
  - `node/compiled.rs` compiles a structured tree, parameterised on one variable, for repeated
    evaluation; `node/simplified.rs` converts it to a simplified tree which can be flattened,
    sorted and reduced.
  - `number.rs` holds numbers: exact rationals, and decimals computed by `rust_decimal`, whose
    results are named where they take pages to state.
  - `render.rs` computes layouts of glyphs, and `renderers/` holds a renderer which draws them
    as ASCII text.
- `tests/` runs the library on concrete inputs.
- `app/` is a terminal calculator built on the library, reading keys from standard input. It also
  holds the quick floating-point sines and cosines which evaluation settings can ask for
  (`use_floats`), since the verified library holds no floating-point arithmetic.

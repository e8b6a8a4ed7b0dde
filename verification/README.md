# walk_through

An evaluator for a small language written in s-expressions, and the logic of
a generator of test files for it, verified with Verus.

- `src/text.rs`: character classes, white space, decimal printing.
- `src/sexp.rs`: s-expressions and the reader (`read_sexp` and the readers of
  booleans, numbers, symbols and lists), specified over the characters of the
  text.
- `src/exp.rs`: expressions, `parse_sexp`, and the printed ("plait") form.
- `src/interp.rs`: values, environments (an `imbl` persistent map), and the
  interpreter, specified by an evaluation function bounded by a depth.
- `src/api.rs`: `parse` and `run`, from text to printed expression or value.
- `src/testgen.rs`: from lines `command,input,expected` to test cases.
- `app/main.rs`: the `make_tests` program: arguments, files.

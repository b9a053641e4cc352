# antlir

Two pieces of the Antlir tooling, with their behaviour stated in Verus
contracts and proved:

- `src/globals.rs` and `src/value.rs`: the global environment of a Starlark
  interpreter. `GlobalsBuilder` collects named frozen values (top-level, or
  as the fields of a struct being built), `Globals` holds the result, and
  `GlobalsStatic` builds its globals once, on first use. Values are modelled
  as plain data: native values known by their type and `repr`, structs, and
  attributes.
- `src/runner.rs`: the decisions and the text of a parallel test runner:
  which tests are disabled, the status line of each result, the tallies and
  failure messages at the end, and the JUnit XML report.
- `src/text.rs`: decimal numerals, substring replacement and joining, over
  sequences of characters.

`app/main.rs` is the test runner program around the library: command line,
database, threads, files. It uses the modules `buck_test`, `pyunit` and
`rust` of the runner, which describe and run the tests.

`tests/` exercises the library on concrete values.

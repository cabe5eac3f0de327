# dynamo_cli

A command-line tool for Amazon DynamoDB tables (list samples, scan, query,
empty a table), whose logic is a library verified with Verus.

- `src/` — the verified library: how attribute values are shown, the table of
  items (columns, their order, the cells), what is read of a table's key
  schema, how a query request is built, how a scan goes on from page to page,
  which keys an emptying deletes, and the tool's errors.  `src/table.rs` holds
  the trusted items through which the library draws its `comfy_table` table.
- `app/` — the program: command-line parsing with `clap`, the AWS client and
  requests, conversion between the SDK's values and the library's, printing.
- `tests/` — tests of the library on concrete values.

The item table keeps its headers in a strictly sorted `Vec<String>` (a set in
byte order) and each row as (column, text) pairs where a later pair replaces an
earlier one (a map).  vstd's specifications of `BTreeSet` and `HashMap` give
facts only for key types known to obey its models (`obeys_cmp`,
`obeys_key_model`); `String` is not among them, and stating that it is would
take an assumption.  So these stand in for them, with the invariants stated
and proved.

# juniper (alias-limit rule and scalar fixtures)

A verified slice of a GraphQL server library, written in Verus.

- `limit_number_of_aliases` — the validation rule that allows at most three
  aliased fields per operation and reports each further alias at the place it
  starts; `validate_document` runs it over a whole document.
- `alias_laws` — what holds of the rule over any walk: operations are judged
  apart, fields without alias change nothing, the count is the number of
  aliases since the last operation started, the reports are exactly the
  aliased fields past the limit of their operation, how many reports an
  operation gets, and that every report points at an alias written in the
  document, at the place (index, line, column) where it starts.
- `split_laws` — a document cut after a closed definition (on white space,
  a line break or a comma) validates as its two parts, each with the other
  blanked out: operations are judged apart in documents too.
- `lexer`, `document`, `position` — the tokens of a document, the walk over
  them (operations, fragments, fields with their aliases) and the places
  (character index, line, column) of what they hold.
- `validation`, `visitor` — errors, the context that collects them, and the
  events of a walk.
- `value`, `scalar_token`, `text` — input and result values, how an input is
  written, and how integer and string literals are read.
- `scalars`, `datetime` — the scalar types of the test schema: how they
  resolve, read inputs and literals, and what introspection tells of them;
  the date and time scalar calls chrono to read and write RFC 3339.

`verus` checks everything in `src/`; `tests/` holds the behaviour tests.

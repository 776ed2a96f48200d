# cashtrack

A personal finance tracker: it imports bank statements (CSV), files each
transaction under a category by keyword rules, stores transactions in SQLite,
and lists them, reports on them, or shows them in a terminal view, for a week,
fortnight, month or year.

The library under `src/` is verified with Verus; `app/` is the program around
it (command line, files, database, terminal).

- `calendar`: dates of the proleptic Gregorian calendar, numbered by day.
- `period`: reporting periods and the ranges of days they cover, and how dates
  are written.
- `amount`: decimal amounts as sign, magnitude and scale, their arithmetic and
  their text, including the "1,234.50" layout.
- `text`: white space, words and substrings.
- `config`, `categorizer`: category rules and the choice of a category.
- `transaction`: stored transactions and reading them back from their rows.
- `import`: statement rows of each bank, and the transactions made from them,
  ordered by date.
- `order`: stable ordering by an integer key.
- `report`: the span, money in and out, and category totals of a list of
  transactions.
- `listing`: the text of a listing and of a report.
- `browser`: what keys do in the terminal view and the text it shows.
- `cli`: what an invocation does.

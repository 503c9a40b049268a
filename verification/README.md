# AVT-Replenishment

Fills the replenishment workbooks of a station from the reports that lie beside them: the FBA
inventory, the shipping limits and the sales reports of five periods. A filling changes the data of
the worksheets it fills and the calculation settings of the workbook, and nothing else. The new
workbook is read back and compared, part by part, before it takes the place of the old one.

- `src/` is the library. Verus proves the contract of every function in it but those that call outside
  code, which are believed (see below).
  - `text`, `number`, `value`, `column`, `escape`, `edit`, `map`: texts, numerals and small tools.
  - `station`, `source`, `identify`, `report`, `load`: names of files and what reports hold.
  - `plan`, `inspect`, `settled`, `inspector`: from a workbook and its directory to a plan.
  - `nesting`, `xml`, `layout`, `sheet`, `refill`, `workbook`, `archive`, `rewrite`,
    `save`: carrying a plan out.
  - `updates`, `package`, `install`: new releases of the program.
  - `session`, `display`, `window`, `command`: what the window and the command line decide and say.
- `app/` is the program around it: files, the network, the window and the command line.
- `tests/` runs the library on concrete values.

What is taken on trust stands in the library behind functions that name the outside function they
call: ZIP archives (`archive`), XML (`xml`), character sets and delimited text (`report`), SHA-256
and lower case (`source`), dates and decimal digits (`identify`), versions (`updates`) and UTF-8
(`text`).

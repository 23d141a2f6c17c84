# harvcode

harvcode collects source files, formats them as Markdown code blocks and
sends the result to the clipboard, stdout or a file.

- `src/` is the library, verified with Verus: argument parsing (`args`),
  file filtering (`filter`), the decisions of the recursive collection
  (`walker`), list mode (`list`), Markdown formatting (`formatter`), picker
  input and output (`picker`), the clipboard fallback rule and output bookkeeping (`output`), the
  execution report (`report`) and the text operations they share (`text`).
- `app/` is the command: reading arguments, walking directories, reading
  files, running the picker and clipboard commands, and printing.
- `tests/` exercises the library on concrete values.

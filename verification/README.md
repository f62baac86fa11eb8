# Giant Text Editor

A desktop editor for viewing, searching and editing text files of several
gigabytes. A file is mapped into memory; its lines are found in the background,
edits are kept beside the file, and a saved file is written line by line.

`src/` is a library, verified with Verus:

- `encoding`, `codec`, `text`, `utf8_lines`, `utf16`: line breaks, and text to bytes and back
- `scan`, `editor`, `display`: the index of the lines, the edits, and what is shown
- `filter`, `pattern`: regular expressions, and finding the lines that match
- `output`, `pieces`, `publish`: what is written, and how it is put in place
- `scroll`, `row_text`, `prefix`, `numbers`, `session`: the view, and the state of the window
- `laws`: what holds of the editor as a whole
- `sample_log`: a log to try it on

`app/` is the program: the window, files and threads. Started with `bench`,
`gen_test_log` or `verify_features` it runs a command in place of the window.
`tests/` holds the tests of the library.

# Peer assessment report generator

A tool for distributing 50 virtual Euros (vEuros) across the members of a
group as part of a university course's peer assessment, and writing the
result to a report file.

- `src/` is the verified library: the configuration rules (`config`), the
  template configuration (`defaults`), the distribution dialogue (`veuros`),
  the assignment screen (`assign`), the setup wizard (`setup`), the text
  field editor (`textfield`), clipboard shortcuts (`clipboard`), font face
  choice (`fonts`), the report (`report`) and the text rules they share
  (`text`).
- `app/` is the program around it: reading and writing files, the console
  dialogue and the raylib window.
- `tests/` exercises the library on concrete values.

# remine_client

A command-line client for Redmine whose core is verified with Verus.

- `src/` is the verified library: a JSON document model (`json`), whose
  objects keep their members in key order, and its compact and pretty
  printing (`json_text`), written against a specification of the JSON text
  with string literals made by `serde_json`; text helpers (`text`); the
  editing of issue documents and their CSV template (`issue`); the
  documents made from a template's records (`template`); request URLs,
  headers, response statuses and attachment filtering and listing
  (`requests`); session sealing (`session`); and the upload document and
  download metadata (`file_ops`). Calls into serde_json, newline-converter,
  quoted-string, magic-crypt and mime_guess stand behind small trusted
  wrappers whose contracts are stated in their doc comments.
- `app/` is the program around it: argument parsing, HTTP requests, files,
  the configuration directory, and reading the template file with the CSV
  reader and serde.
- `tests/` exercises the library on concrete values.

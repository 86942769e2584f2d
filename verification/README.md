# pelp

A presentation helper: it picks the Markdown source of a reveal.js
presentation and the HTML page it is built into, builds it with pandoc, serves
it with live reload, keeps a log of recently opened presentations, and creates
new presentations from a template.

- `src/` is the library, verified with Verus: Unix path handling on text
  (`path`), choosing source and output files (`finder`), the access log
  (`access_log`), the pandoc command and watcher decisions (`presentation`),
  planning new presentations (`creation`), configuration lookup (`config`),
  web-server decisions (`serve`) and the kinds of presentation
  (`project_type`).
- `app/` is the command-line program around it: argument parsing, prompts,
  the file system, pandoc and the web server.
- `tests/` holds the tests of the library.

# tko

A library for a programming-practice game: sources of tasks (a local folder
or a git repository), index files that group tasks into quests, the
student's self-assessment of each task, drafts in the student's sandbox, and
styled terminal text.

The library in `src/` is written in Verus: its functions carry contracts
that Verus proves, apart from the small trusted wrappers described below.

- `rtext`, `rt`, `text`, `text_style`: styled text as runs of
  `(style, text)`, its templates, wrapping, truncation and rendering.
- `strs`, `chars`, `keymap`, `paths`, `dict`: strings, insertion-ordered maps,
  paths held as strings, and configuration values.
- `game`: tasks, quests, the parsers of index lines, and the builder that
  turns an index file into quests.
- `feno`: keeping an index file in step with the task folders on disk.
- `settings`: sources, the git cache and the program settings.
- `down`: the student's drafts.

Calls into other crates (Unicode width and normalization, SHA-1, hex,
relative paths) go through small trusted wrappers whose contracts say what
the crate documents.

`app/` holds the program around the library: file and process I/O, the
floating-point grades, and the JSON forms of the configuration.

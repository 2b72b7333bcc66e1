# miniblog

A tiny, database-free blog: posts are markdown files with YAML frontmatter
under `public/content/<category>/<post>.md`, indexed at startup and served by
an Axum app.

- `src/` is the verified library (Verus): splitting frontmatter from a post,
  assembling posts, excerpts, category names, the index (drafts dropped,
  newest first, one category per content folder with its count), lookups,
  the sitemap, robots.txt,
  page metadata and the JSON-LD of a post page, post-file planning, the
  bearer-token check and the content watcher's debounce decisions.
- `app/` is the program around it: reading the content folder, YAML and JSON
  (de)serialization, the database, HTTP routing, templates, and running the
  reindexing loops (timers, filesystem events) that the library decides.
- `tests/` runs the library on concrete inputs.

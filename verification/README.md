# rig_tools

Agent tools (read, edit and write files, list directories, find files by
glob, search contents by regular expression, run PowerShell, fetch web pages)
as a verified library plus a thin layer that plugs them into `rig`.

* `src/` — the logic, in Verus, with its contracts:
  * `text` — the string model: lines as `str::lines` splits them, joining,
    decimal numbers, white space, ASCII case;
  * `paths` — `/`-separated paths: resolving against a working directory,
    file names and extensions;
  * `edit_file` — choosing the edits, applying them in order (first
    occurrence each), the line diff of the change;
  * `read_file` — image types by extension, the window of lines shown;
  * `grep` — compiling the pattern, scanning files line by line with
    context and a limit, the listing;
  * `glob`, `ls`, `sort` — collecting matches, stable ordering by key, limits;
  * `web_fetch` — accepted URLs, request settings, retry and size decisions,
    media types, HTML to Markdown or text, the answer;
  * `encoding` — lossy UTF-8 decoding, Base64 and the JSON image object;
  * `lib` — tool metadata, path resolution, command output formatting.
* `app/` — the `rig::tool::Tool` implementations: serde argument types, the
  file system, processes and HTTP, and the English messages.
* `tests/` — tests of the library.

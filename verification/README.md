# ghgrab

A terminal tool to browse a GitHub repository and download chosen files and
folders without cloning it, with a machine-readable agent mode.

The library under `src/` holds the logic, verified with Verus:

- `github` — GitHub locations (URL parsing, API URLs), repository items,
  Git LFS pointers, and what an API response status means.
- `agent` — the agent mode's JSON envelopes, error codes, and the
  resolution of requested paths into the files to download.
- `download` — what each item of a download asks for and the messages
  reported on the way.
- `config` — saved settings and how a token is shown.
- `theme` — colours of a theme file, written `#RRGGBB`.
- `ui` — the interface as a state machine: key handling (`keys`), the file
  list (`browse`), folder sizes (`folders`), repository search (`search`),
  the answers to outside work (`events`), and what each screen shows
  (`display`).
- `text`, `sort` — string and stable-sorting building blocks.
- `laws` — properties that span several functions.

`app/` is the program around it: the command line, HTTP requests, file
writing, and drawing with ratatui.

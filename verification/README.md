# sonde

The core of Sonde, a viewer for atmospheric soundings, written in Verus and verified.

- `src/` is the verified library:
  - `app_context` — the state shared by all views: which sounding is shown, stepping through
    them (with wrap-around), the sample under the cursor, the plot that has the focus, and the
    layered drawing caches of each plot.
  - `ordering` — the order of loaded soundings (by valid time, then lead time) and the removal
    of repeated valid times.
  - `file_formats` — which reader is tried first for a file, the search for a reader that can
    read it, and the valid time of a BUFR message.
  - `logger` — the console log queue in front of a bounded channel.
  - `tabs` — saving and restoring the tab layout of the two notebooks.
  - `config`, `cloud_drawing`, `provider` — overlay choices, what the cloud profile draws, and
    what the data provider reports.
- `tests/` exercises the library on concrete values.
- `app/` is a command-line front end: it reads Bufkit and Wyoming files, runs the analyses on a
  thread pool, and prints the soundings in the order the viewer shows them.

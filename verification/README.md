# commune

A console scanner that probes sequential community identifiers through a pool of
HTTP proxies and reports the communities that can be claimed.

- `src/` is the verified library (Verus): the character toolkit (`text`), the
  dashboard state and its events (`types`), number formatting and terminal styles
  (`shared`), the proxy pool (`proxy`), the scanner's decisions and saved progress
  (`scanner`), and the dashboard's text and key handling (`console`).
- `app/` is the Windows console program around it: console mode and input, the
  files `proxies.txt` and `scanner-state.json`, sockets, threads and timing.
- `tests/` runs the library on concrete inputs.
